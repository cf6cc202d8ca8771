//! Source rewriting shared by every zkVM back end: the text operations that
//! turn a user's program into guest and host programs.
use vstd::prelude::*;
use crate::text::{
    append_chars, chars_of, chars_of_all, contains, contains_chars, count_char, ends_with_cr, find,
    find_chars_from, find_from, join_lines, lemma_find_from, lemma_lines_no_newline,
    lemma_lines_of_join, lemma_replace_absent, lemma_replace_leaves_none, seamless, lemma_trim_idempotent, lines, no_newline, occurs_at,
    replace_all, replace_chars,
    replace_str, slice_chars, split_lines, starts_with, starts_with_chars, string_of,
    string_views, strings_of_all, trim, trim_chars, trim_start, trim_start_chars, views,
};

verus! {

/// Host-side marker of a value handed to the guest.
pub const IO_WRITE: &'static str = "zk_rust_io::write";

/// Host-side marker of a value read back from the guest.
pub const IO_OUT: &'static str = "zk_rust_io::out();";

/// Place in a host template where the body of `input()` goes.
pub const HOST_INPUT: &'static str = "// INPUT //";

/// Place in a host template where the body of `output()` goes.
pub const HOST_OUTPUT: &'static str = "// OUTPUT //";

/// Guest-side marker of a value read from the host.
pub const IO_READ: &'static str = "zk_rust_io::read();";

/// Guest-side marker of a value committed as public output.
pub const IO_COMMIT: &'static str = "zk_rust_io::commit";

/// Signature that starts the user's `output()` function.
pub const OUTPUT_FUNC: &'static str = "pub fn output() {";

/// Signature that starts the user's `input()` function.
pub const INPUT_FUNC: &'static str = "pub fn input() {";

// ---------------------------------------------------------------------------
// Prepending, replacing, inserting
// ---------------------------------------------------------------------------

/// `text_to_prepend` followed by the existing `content`: what a file holds
/// after `text_to_prepend` is written in front of its content.
pub fn prepend(content: &str, text_to_prepend: &str) -> (r: String)
    ensures
        r@ == text_to_prepend@ + content@,
{
    let mut out = chars_of(text_to_prepend);
    let c = chars_of(content);
    append_chars(&mut out, &c);
    string_of(&out)
}

/// `contents` with every occurrence of `search_string` replaced by
/// `replace_string`, as `str::replace` does.
pub fn replace(contents: &str, search_string: &str, replace_string: &str) -> (r: String)
    ensures
        r@ == replace_all(contents@, search_string@, replace_string@),
{
    replace_str(contents, search_string, replace_string)
}

/// Removing a text that was appended, and that occurs nowhere else, undoes
/// the append: where `s` is not empty and occurs in `c + s + d` only where
/// it was put, at `c.len()`, replacing it by nothing gives back `c + d`.
pub proof fn lemma_replace_removes_unique(c: Seq<char>, s: Seq<char>, d: Seq<char>)
    requires
        s.len() > 0,
        forall|i: int| occurs_at(c + s + d, s, i) ==> i == c.len(),
    ensures
        replace_all(c + s + d, s, seq![]) == c + d,
    decreases c.len(),
{
    let x = c + s + d;
    if c.len() == 0 {
        assert(x.subrange(0, s.len() as int) == s);
        assert(x.skip(s.len() as int) == d);
        assert forall|i: int| !occurs_at(d, s, i) by {
            if occurs_at(d, s, i) {
                assert(x.subrange(s.len() + i, s.len() + i + s.len()) == d.subrange(
                    i,
                    i + s.len(),
                ));
                assert(occurs_at(x, s, s.len() + i));
            }
        }
        lemma_replace_absent(d, s, seq![]);
        assert(c + d == d);
    } else {
        let t = x.drop_first();
        assert(t == c.drop_first() + s + d);
        assert(!occurs_at(x, s, 0));
        assert forall|i: int| occurs_at(c.drop_first() + s + d, s, i) implies i
            == c.drop_first().len() by {
            assert(x.subrange(i + 1, i + 1 + s.len()) == t.subrange(i, i + s.len()));
            assert(occurs_at(x, s, i + 1));
        }
        lemma_replace_removes_unique(c.drop_first(), s, d);
        assert(x[0] == c[0]);
        assert(c + d == seq![c[0]] + (c.drop_first() + d));
    }
}

/// `target` with a line holding `text` inserted right after the first
/// occurrence of `search`: the part up to the end of that occurrence, a line
/// feed, `text`, a line feed, and the rest. `None` where `search` does not
/// occur.
pub open spec fn insert_after(target: Seq<char>, text: Seq<char>, search: Seq<char>) -> Option<
    Seq<char>,
> {
    match find(target, search) {
        Some(pos) => Some(
            target.take(pos + search.len()) + seq!['\n'] + text + seq!['\n'] + target.skip(
                pos + search.len(),
            ),
        ),
        None => None,
    }
}

/// `insert_after`, keeping `target` as it is where `search` does not occur.
pub open spec fn insert_or_keep(target: Seq<char>, text: Seq<char>, search: Seq<char>) -> Seq<
    char,
> {
    match insert_after(target, text, search) {
        Some(t) => t,
        None => target,
    }
}

/// Inserts `text`, on a line of its own, right after the first occurrence of
/// `search_string` in `target_contents`; `None` where `search_string` does
/// not occur (the file is then left as it was).
pub fn insert(target_contents: &str, text: &str, search_string: &str) -> (r: Option<String>)
    ensures
        r.deep_view() == insert_after(target_contents@, text@, search_string@),
{
    let t = chars_of(target_contents);
    let x = chars_of(text);
    let s = chars_of(search_string);
    match find_chars_from(&t, &s, 0) {
        Some(pos) => {
            proof {
                lemma_find_from(t@, s@, 0);
            }
            assert(pos + s.len() <= t.len());
            let cut = pos + s.len();
            let mut out = slice_chars(&t, 0, cut);
            out.push('\n');
            append_chars(&mut out, &x);
            out.push('\n');
            let after = slice_chars(&t, cut, t.len());
            append_chars(&mut out, &after);
            assert(t@.subrange(0, cut as int) == t@.take(cut as int));
            assert(t@.subrange(cut as int, t@.len() as int) == t@.skip(cut as int));
            Some(string_of(&out))
        },
        None => None,
    }
}

/// `content` with `text` placed right before the first occurrence of
/// `substring`; `content` itself where `substring` does not occur.
pub open spec fn before_first(content: Seq<char>, substring: Seq<char>, text: Seq<char>) -> Seq<
    char,
> {
    match find(content, substring) {
        Some(pos) => content.take(pos) + text + content.skip(pos),
        None => content,
    }
}

/// Places `text` right before the first occurrence of `substring` in
/// `content`; returns `content` unchanged where `substring` does not occur.
pub fn add_before_substring(content: &str, substring: &str, text: &str) -> (r: String)
    ensures
        r@ == before_first(content@, substring@, text@),
{
    let c = chars_of(content);
    let s = chars_of(substring);
    match find_chars_from(&c, &s, 0) {
        Some(pos) => {
            proof {
                lemma_find_from(c@, s@, 0);
            }
            let mut out = slice_chars(&c, 0, pos);
            let x = chars_of(text);
            append_chars(&mut out, &x);
            let after = slice_chars(&c, pos, c.len());
            append_chars(&mut out, &after);
            assert(c@.subrange(0, pos as int) == c@.take(pos as int));
            assert(c@.subrange(pos as int, c@.len() as int) == c@.skip(pos as int));
            string_of(&out)
        },
        None => String::from_str(content),
    }
}


// ---------------------------------------------------------------------------
// Function bodies
// ---------------------------------------------------------------------------

/// Where each signature of `kws` starts in `code`, each one searched from the
/// end of the previous one (the first from `from`); `None` where one of them
/// is not found.
pub open spec fn signature_starts(code: Seq<char>, kws: Seq<Seq<char>>, from: int) -> Option<
    Seq<int>,
>
    decreases kws.len(),
{
    if kws.len() == 0 {
        Some(seq![])
    } else {
        match find_from(code, kws[0], from) {
            Some(k) => match signature_starts(code, kws.drop_first(), k + kws[0].len()) {
                Some(rest) => Some(seq![k] + rest),
                None => None,
            },
            None => None,
        }
    }
}

/// Index of the `}` that closes the braces still open at index `i`, where
/// `depth` of them are open; `None` where the text ends first.
pub open spec fn closing_brace(code: Seq<char>, i: int, depth: nat) -> Option<int>
    decreases code.len() - i,
{
    if i < 0 || i >= code.len() {
        None
    } else if code[i] == '{' {
        closing_brace(code, i + 1, depth + 1)
    } else if code[i] == '}' {
        if depth <= 1 {
            Some(i)
        } else {
            closing_brace(code, i + 1, (depth - 1) as nat)
        }
    } else {
        closing_brace(code, i + 1, depth)
    }
}

/// The first `{` at or after `start`.
pub open spec fn brace_after(code: Seq<char>, start: int) -> Option<int> {
    find_from(code, seq!['{'], start)
}

/// The `{` that follows `start`, if any, is closed somewhere.
pub open spec fn body_closed(code: Seq<char>, start: int) -> bool {
    match brace_after(code, start) {
        Some(b) => closing_brace(code, b + 1, 1) is Some,
        None => true,
    }
}

/// The trimmed text between the first `{` after each start and the `}` that
/// closes it; a start with no `{` after it gives nothing.
pub open spec fn bodies_at(code: Seq<char>, starts: Seq<int>) -> Seq<Seq<char>>
    decreases starts.len(),
{
    if starts.len() == 0 {
        seq![]
    } else {
        (match brace_after(code, starts[0]) {
            Some(b) => seq![trim(code.subrange(b + 1, closing_brace(code, b + 1, 1)->0))],
            None => seq![],
        }) + bodies_at(code, starts.drop_first())
    }
}

/// Every signature is found, in order, and every body that opens is closed.
pub open spec fn bodies_extractable(code: Seq<char>, kws: Seq<Seq<char>>) -> bool {
    &&& signature_starts(code, kws, 0) is Some
    &&& forall|i: int|
        0 <= i < signature_starts(code, kws, 0)->0.len() ==> body_closed(
            code,
            #[trigger] signature_starts(code, kws, 0)->0[i],
        )
}

/// The bodies of the functions whose signatures are `kws`, in order.
pub open spec fn function_bodies(code: Seq<char>, kws: Seq<Seq<char>>) -> Seq<Seq<char>> {
    bodies_at(code, signature_starts(code, kws, 0)->0)
}

/// Every body is already trimmed: trimming it again changes nothing.
pub proof fn lemma_bodies_trimmed(code: Seq<char>, kws: Seq<Seq<char>>)
    ensures
        forall|i: int|
            0 <= i < function_bodies(code, kws).len() ==> trim(
                #[trigger] function_bodies(code, kws)[i],
            ) == function_bodies(code, kws)[i],
{
    lemma_bodies_at_trimmed(code, signature_starts(code, kws, 0)->0);
}

proof fn lemma_bodies_at_trimmed(code: Seq<char>, starts: Seq<int>)
    ensures
        forall|i: int|
            0 <= i < bodies_at(code, starts).len() ==> trim(#[trigger] bodies_at(code, starts)[i])
                == bodies_at(code, starts)[i],
    decreases starts.len(),
{
    if starts.len() > 0 {
        lemma_bodies_at_trimmed(code, starts.drop_first());
        let rest = bodies_at(code, starts.drop_first());
        let all = bodies_at(code, starts);
        match brace_after(code, starts[0]) {
            Some(b) => {
                let body = code.subrange(b + 1, closing_brace(code, b + 1, 1)->0);
                lemma_trim_idempotent(body);
                assert forall|i: int| 0 <= i < all.len() implies trim(#[trigger] all[i])
                    == all[i] by {
                    if i > 0 {
                        assert(all[i] == rest[i - 1]);
                    }
                }
            },
            None => {
                assert(all == rest);
            },
        }
    }
}

/// The integers that a vector of indices holds.
pub open spec fn ints(v: Seq<usize>) -> Seq<int> {
    v.map_values(|k: usize| k as int)
}

/// `Some(prefix + rest)` where `o` is `Some(rest)`.
pub open spec fn prefixed(prefix: Seq<int>, o: Option<Seq<int>>) -> Option<Seq<int>> {
    match o {
        Some(rest) => Some(prefix + rest),
        None => None,
    }
}

/// A closing brace found from `i` lies at or after `i`, inside the text.
pub proof fn lemma_closing_brace_bounds(code: Seq<char>, i: int, depth: nat)
    ensures
        closing_brace(code, i, depth) matches Some(e) ==> i <= e < code.len(),
    decreases code.len() - i,
{
    if i < 0 || i >= code.len() {
    } else if code[i] == '{' {
        lemma_closing_brace_bounds(code, i + 1, depth + 1);
    } else if code[i] == '}' {
        if depth > 1 {
            lemma_closing_brace_bounds(code, i + 1, (depth - 1) as nat);
        }
    } else {
        lemma_closing_brace_bounds(code, i + 1, depth);
    }
}

/// How many more `}` than `{` a text holds.
pub open spec fn brace_balance(s: Seq<char>) -> int {
    count_char(s, '}') - count_char(s, '{')
}

/// The balance of `code[i..=j]` is that of its first character and of
/// `code[i + 1..=j]`.
proof fn lemma_brace_balance_step(code: Seq<char>, i: int, j: int)
    requires
        0 <= i <= j < code.len(),
    ensures
        brace_balance(code.subrange(i, j + 1)) == (if code[i] == '}' {
            1int
        } else if code[i] == '{' {
            -1int
        } else {
            0int
        }) + if j > i {
            brace_balance(code.subrange(i + 1, j + 1))
        } else {
            0int
        },
{
    let w = code.subrange(i, j + 1);
    assert(w[0] == code[i]);
    assert(w.drop_first() == code.subrange(i + 1, j + 1));
    if j == i {
        assert(w.drop_first().len() == 0);
        assert(count_char(w.drop_first(), '}') == 0);
        assert(count_char(w.drop_first(), '{') == 0);
    }
}

/// The brace that closes `depth` open braces from `i` is the first `}` at
/// which the `}`s seen since `i` outnumber the `{`s by `depth`, whatever the
/// nesting in between; where there is none, that balance is never reached.
pub proof fn lemma_closing_brace_balances(code: Seq<char>, i: int, depth: nat)
    requires
        0 <= i,
        depth >= 1,
    ensures
        closing_brace(code, i, depth) matches Some(e) ==> {
            &&& i <= e < code.len()
            &&& code[e] == '}'
            &&& brace_balance(code.subrange(i, e + 1)) == depth
            &&& forall|j: int|
                i <= j < e ==> brace_balance(#[trigger] code.subrange(i, j + 1)) < depth
        },
        closing_brace(code, i, depth) is None ==> forall|j: int|
            i <= j < code.len() ==> brace_balance(#[trigger] code.subrange(i, j + 1)) < depth,
    decreases code.len() - i,
{
    if i >= code.len() {
    } else {
        let next: nat = if code[i] == '{' {
            depth + 1
        } else if code[i] == '}' && depth > 1 {
            (depth - 1) as nat
        } else {
            depth
        };
        if code[i] == '}' && depth <= 1 {
            lemma_brace_balance_step(code, i, i);
        } else {
            lemma_closing_brace_balances(code, i + 1, next);
            assert forall|j: int| i <= j < code.len() implies brace_balance(
                #[trigger] code.subrange(i, j + 1),
            ) == brace_balance(code.subrange(i, i + 1)) + if j > i {
                brace_balance(code.subrange(i + 1, j + 1))
            } else {
                0int
            } by {
                lemma_brace_balance_step(code, i, j);
                lemma_brace_balance_step(code, i, i);
            }
            lemma_brace_balance_step(code, i, i);
        }
    }
}

/// Where each signature starts, as `signature_starts` from index 0 says.
fn locate_signatures(code: &[char], kws: &Vec<Vec<char>>) -> (r: Option<Vec<usize>>)
    ensures
        r matches Some(v) ==> signature_starts(code@, views(kws@), 0) == Some(ints(v@)),
        r is None ==> signature_starts(code@, views(kws@), 0) is None,
{
    let ghost all = views(kws@);
    let mut out: Vec<usize> = Vec::new();
    let mut index: usize = 0;
    let mut i: usize = 0;
    assert(all.skip(0) == all);
    assert(ints(out@) + Seq::<int>::empty() == Seq::<int>::empty());
    while i < kws.len()
        invariant
            i <= kws.len(),
            index <= code.len(),
            all == views(kws@),
            signature_starts(code@, all, 0) == prefixed(
                ints(out@),
                signature_starts(code@, all.skip(i as int), index as int),
            ),
        decreases kws.len() - i,
    {
        let ghost rest = all.skip(i as int);
        assert(rest[0] == kws@[i as int]@);
        assert(rest.drop_first() == all.skip(i + 1));
        match find_chars_from(code, &kws[i], index) {
            Some(k) => {
                proof {
                    lemma_find_from(code@, kws@[i as int]@, index as int);
                }
                let ghost before = ints(out@);
                out.push(k);
                assert(ints(out@) == before + seq![k as int]);
                assert(before + (seq![k as int] + signature_starts(code@, all.skip(i + 1), k + kws@[i as int]@.len())->0)
                    == ints(out@) + signature_starts(code@, all.skip(i + 1), k + kws@[i as int]@.len())->0);
                index = k + kws[i].len();
            },
            None => {
                return None;
            },
        }
        i += 1;
    }
    assert(all.skip(i as int).len() == 0);
    assert(ints(out@) + Seq::<int>::empty() == ints(out@));
    Some(out)
}

/// The index of the `}` that closes a brace opened right before `start`.
fn closing_brace_from(code: &[char], start: usize) -> (r: Option<usize>)
    ensures
        r matches Some(e) ==> closing_brace(code@, start as int, 1) == Some(e as int),
        r is None ==> closing_brace(code@, start as int, 1) is None,
{
    if start >= code.len() {
        return None;
    }
    let mut depth: u128 = 1;
    let mut i: usize = start;
    while i < code.len()
        invariant
            start <= i <= code.len(),
            1 <= depth <= i - start + 1,
            i - start <= code.len(),
            closing_brace(code@, start as int, 1) == closing_brace(code@, i as int, depth as nat),
        decreases code.len() - i,
    {
        if code[i] == '{' {
            depth += 1;
        } else if code[i] == '}' {
            if depth <= 1 {
                return Some(i);
            }
            depth -= 1;
        }
        i += 1;
    }
    None
}

/// The function bodies found from the given signature starts, and whether
/// every body that opens is closed.
fn bodies_from_starts(code: &[char], starts: &Vec<usize>, extract: bool) -> (r: (bool, Vec<Vec<char>>))
    ensures
        r.0 == (forall|i: int| 0 <= i < starts@.len() ==> body_closed(code@, #[trigger] ints(starts@)[i])),
        r.0 && extract ==> views(r.1@) == bodies_at(code@, ints(starts@)),
{
    let open_brace: Vec<char> = vec!['{'];
    assert(open_brace@ == seq!['{']);
    let ghost all = ints(starts@);
    let mut out: Vec<Vec<char>> = Vec::new();
    let mut i: usize = 0;
    assert(all.skip(0) == all);
    while i < starts.len()
        invariant
            i <= starts.len(),
            all == ints(starts@),
            open_brace@ == seq!['{'],
            forall|j: int| 0 <= j < i ==> body_closed(code@, #[trigger] all[j]),
            extract ==> views(out@) + bodies_at(code@, all.skip(i as int)) == bodies_at(code@, all),
        decreases starts.len() - i,
    {
        let ghost rest = all.skip(i as int);
        assert(rest[0] == starts@[i as int] as int);
        assert(rest.drop_first() == all.skip(i + 1));
        match find_chars_from(code, &open_brace, starts[i]) {
            Some(b) => {
                proof {
                    lemma_find_from(code@, seq!['{'], starts@[i as int] as int);
                }
                assert(b + 1 <= code.len());
                let ghost closing = closing_brace(code@, b + 1, 1);
                proof {
                    lemma_closing_brace_bounds(code@, b + 1, 1);
                }
                match closing_brace_from(code, b + 1) {
                    Some(e) => {
                        if extract {
                            let body = trim_chars(&slice_chars(code, b + 1, e));
                            let ghost before = views(out@);
                            out.push(body);
                            assert(views(out@) == before + seq![body@]);
                        }
                    },
                    None => {
                        return (false, out);
                    },
                }
            },
            None => {
                assert(Seq::<Seq<char>>::empty() + bodies_at(code@, all.skip(i + 1)) == bodies_at(code@, all.skip(i + 1)));
            },
        }
        i += 1;
    }
    assert(all.skip(i as int).len() == 0);
    assert(views(out@) + Seq::<Seq<char>>::empty() == views(out@));
    (true, out)
}

/// Whether every signature in `functions` is found, in order, in `code`, and
/// the body after each one that opens a brace is closed: exactly the inputs on
/// which `extract_function_bodies` does its work.
pub fn function_bodies_extractable(code: &str, functions: &Vec<String>) -> (r: bool)
    ensures
        r == bodies_extractable(code@, string_views(functions@)),
{
    let c = chars_of(code);
    let kws = chars_of_all(functions);
    match locate_signatures(&c, &kws) {
        Some(starts) => {
            let (ok, _) = bodies_from_starts(&c, &starts, false);
            assert(signature_starts(c@, views(kws@), 0)->0 == ints(starts@));
            ok
        },
        None => false,
    }
}

/// The bodies of the functions whose signatures are `functions`, searched in
/// this order through `code`: for each, the trimmed text between the first
/// `{` after the signature and the `}` that closes it. A signature with no
/// `{` after it gives no body.
pub fn extract_function_bodies(code: &str, functions: &Vec<String>) -> (r: Vec<String>)
    requires
        bodies_extractable(code@, string_views(functions@)),
    ensures
        string_views(r@) == function_bodies(code@, string_views(functions@)),
{
    let c = chars_of(code);
    let kws = chars_of_all(functions);
    match locate_signatures(&c, &kws) {
        Some(starts) => {
            let (_, bodies) = bodies_from_starts(&c, &starts, true);
            strings_of_all(&bodies)
        },
        None => Vec::new(),
    }
}


// ---------------------------------------------------------------------------
// Imports
// ---------------------------------------------------------------------------

/// A line that opens an import: after its indentation it starts with `use `,
/// `pub mod ` or `mod `.
pub open spec fn is_import_start(l: Seq<char>) -> bool {
    let t = trim_start(l);
    starts_with(t, "use "@) || starts_with(t, "pub mod "@) || starts_with(t, "mod "@)
}

/// The imports collected from the first `n` lines of `ls`, and whether an
/// import is still open after them (its `;` not yet seen). An import takes the
/// line that opens it and every following line up to and with the first one
/// that holds a `;`; each taken line is followed by a line feed.
pub open spec fn import_scan(ls: Seq<Seq<char>>, n: nat) -> (Seq<char>, bool)
    decreases n,
{
    if n == 0 || n > ls.len() {
        (seq![], false)
    } else {
        let (acc, open) = import_scan(ls, (n - 1) as nat);
        let l = ls[n - 1];
        if open || is_import_start(l) {
            (acc + l + seq!['\n'], !contains(l, seq![';']))
        } else {
            (acc, false)
        }
    }
}

/// The import declarations of `code`, line by line.
pub open spec fn imports_of(code: Seq<char>) -> Seq<char> {
    import_scan(lines(code), lines(code).len()).0
}

/// Does the line open an import?
fn opens_import(l: &[char]) -> (r: bool)
    ensures
        r == is_import_start(l@),
{
    let t = trim_start_chars(l);
    let u = chars_of("use ");
    let pm = chars_of("pub mod ");
    let m = chars_of("mod ");
    starts_with_chars(&t, &u) || starts_with_chars(&t, &pm) || starts_with_chars(&t, &m)
}

/// The `use`, `pub mod` and `mod` declarations of `code`, each line of them
/// followed by a line feed; a declaration that spans several lines is taken up
/// to the line with its `;`.
pub fn get_imports(code: &str) -> (r: String)
    ensures
        r@ == imports_of(code@),
{
    let c = chars_of(code);
    let ls = split_lines(&c);
    let semi: Vec<char> = vec![';'];
    assert(semi@ == seq![';']);
    let mut acc: Vec<char> = Vec::new();
    let mut open = false;
    let mut i: usize = 0;
    while i < ls.len()
        invariant
            i <= ls.len(),
            semi@ == seq![';'],
            views(ls@) == lines(c@),
            (acc@, open) == import_scan(views(ls@), i as nat),
        decreases ls.len() - i,
    {
        let l = &ls[i];
        assert(views(ls@)[i as int] == l@);
        if open || opens_import(l) {
            append_chars(&mut acc, l);
            acc.push('\n');
            open = !contains_chars(l, &semi);
        } else {
            open = false;
        }
        i += 1;
    }
    string_of(&acc)
}

/// The lines that the first `n` lines of `ls` contribute to the imports, and
/// whether an import is still open after them: the lines behind
/// `import_scan`.
pub open spec fn import_taken(ls: Seq<Seq<char>>, n: nat) -> (Seq<Seq<char>>, bool)
    decreases n,
{
    if n == 0 || n > ls.len() {
        (seq![], false)
    } else {
        let (taken, open) = import_taken(ls, (n - 1) as nat);
        let l = ls[n - 1];
        if open || is_import_start(l) {
            (taken.push(l), !contains(l, seq![';']))
        } else {
            (taken, false)
        }
    }
}

/// Joining one more line appends it and its line feed.
proof fn lemma_join_push(xs: Seq<Seq<char>>, l: Seq<char>)
    ensures
        join_lines(xs.push(l)) == join_lines(xs) + l + seq!['\n'],
    decreases xs.len(),
{
    if xs.len() == 0 {
        assert(xs.push(l).drop_first() == Seq::<Seq<char>>::empty());
        assert(xs.push(l)[0] == l);
        assert(xs.push(l).drop_first().len() == 0);
        assert(join_lines(xs.push(l).drop_first()) == Seq::<char>::empty());
        assert(join_lines(xs) == Seq::<char>::empty());
        assert(join_lines(xs.push(l)) =~= join_lines(xs) + l + seq!['\n']);
    } else {
        lemma_join_push(xs.drop_first(), l);
        assert(xs.push(l).drop_first() == xs.drop_first().push(l));
        assert(xs.push(l)[0] == xs[0]);
        assert(join_lines(xs.push(l)) =~= join_lines(xs) + l + seq!['\n']);
    }
}

/// The imports text is the taken lines, each with its line feed, and both
/// scans agree on whether an import is open.
proof fn lemma_import_scan_taken(ls: Seq<Seq<char>>, n: nat)
    ensures
        import_scan(ls, n).0 == join_lines(import_taken(ls, n).0),
        import_scan(ls, n).1 == import_taken(ls, n).1,
    decreases n,
{
    if n > 0 && n <= ls.len() {
        lemma_import_scan_taken(ls, (n - 1) as nat);
        let (taken, open) = import_taken(ls, (n - 1) as nat);
        let l = ls[n - 1];
        if open || is_import_start(l) {
            lemma_join_push(taken, l);
        }
    } else if n > ls.len() {
        assert(join_lines(Seq::<Seq<char>>::empty()) == Seq::<char>::empty());
    }
}

/// The scan of the first `m` lines depends on those lines alone.
proof fn lemma_import_taken_prefix(a: Seq<Seq<char>>, b: Seq<Seq<char>>, m: nat)
    requires
        m <= a.len(),
        m <= b.len(),
        a.take(m as int) == b.take(m as int),
    ensures
        import_taken(a, m) == import_taken(b, m),
    decreases m,
{
    if m > 0 {
        assert(a.take(m - 1) == a.take(m as int).take(m - 1));
        assert(b.take(m - 1) == b.take(m as int).take(m - 1));
        lemma_import_taken_prefix(a, b, (m - 1) as nat);
        assert(a[m - 1] == a.take(m as int)[m - 1]);
        assert(b[m - 1] == b.take(m as int)[m - 1]);
    }
}

/// Every taken line is one of the scanned lines, and scanning the taken
/// lines takes them all again and ends in the same state.
proof fn lemma_import_taken_rescan(ls: Seq<Seq<char>>, n: nat)
    requires
        n <= ls.len(),
    ensures
        forall|i: int|
            0 <= i < import_taken(ls, n).0.len() ==> exists|j: int|
                0 <= j < n && ls[j] == #[trigger] import_taken(ls, n).0[i],
        import_taken(import_taken(ls, n).0, import_taken(ls, n).0.len()) == import_taken(ls, n),
    decreases n,
{
    if n > 0 {
        lemma_import_taken_rescan(ls, (n - 1) as nat);
        let (taken, open) = import_taken(ls, (n - 1) as nat);
        let l = ls[n - 1];
        if open || is_import_start(l) {
            let t2 = taken.push(l);
            assert(t2.take(taken.len() as int) == taken);
            assert(taken.take(taken.len() as int) == taken);
            lemma_import_taken_prefix(t2, taken, taken.len());
            assert(t2[taken.len() as int] == l);
            assert forall|i: int| 0 <= i < t2.len() implies exists|j: int|
                0 <= j < n && ls[j] == #[trigger] t2[i] by {
                if i < taken.len() {
                    assert(t2[i] == taken[i]);
                    let j = choose|j: int| 0 <= j < n - 1 && ls[j] == taken[i];
                    assert(ls[j] == t2[i]);
                } else {
                    assert(ls[n - 1] == t2[i]);
                }
            }
        } else {
            assert(!open);
        }
    }
}

/// Collecting the imports of the collected imports gives them back.
/// Excluded: texts in which a taken import line ends with a carriage return
/// that no line feed follows, since writing it back with a line feed turns
/// that carriage return into part of a line break.
pub proof fn lemma_imports_idempotent(code: Seq<char>)
    requires
        forall|i: int|
            0 <= i < import_taken(lines(code), lines(code).len()).0.len() ==> !ends_with_cr(
                #[trigger] import_taken(lines(code), lines(code).len()).0[i],
            ),
    ensures
        imports_of(imports_of(code)) == imports_of(code),
{
    let ls = lines(code);
    let t = import_taken(ls, ls.len()).0;
    lemma_import_scan_taken(ls, ls.len());
    lemma_import_taken_rescan(ls, ls.len());
    lemma_lines_no_newline(code, 0);
    assert forall|i: int| 0 <= i < t.len() implies no_newline(#[trigger] t[i]) && !ends_with_cr(
        t[i],
    ) by {
        let j = choose|j: int| 0 <= j < ls.len() && ls[j] == t[i];
        assert(no_newline(ls[j]));
    }
    lemma_lines_of_join(t);
    assert(imports_of(code) == join_lines(t));
    assert(lines(imports_of(code)) == t);
    lemma_import_scan_taken(t, t.len());
}

// ---------------------------------------------------------------------------
// Removing lines
// ---------------------------------------------------------------------------

/// The lines of `ls` that do not contain `target`, in order.
pub open spec fn lines_without(ls: Seq<Seq<char>>, target: Seq<char>) -> Seq<Seq<char>>
    decreases ls.len(),
{
    if ls.len() == 0 {
        seq![]
    } else if contains(ls[0], target) {
        lines_without(ls.drop_first(), target)
    } else {
        seq![ls[0]] + lines_without(ls.drop_first(), target)
    }
}

/// `text` with every line that contains `target` dropped, each kept line
/// followed by a line feed.
pub open spec fn without_target_lines(text: Seq<char>, target: Seq<char>) -> Seq<char> {
    join_lines(lines_without(lines(text), target))
}

/// Drops every line of `text` that contains `target`; each kept line is
/// written back followed by a line feed.
pub fn remove_lines(text: &str, target: &str) -> (r: String)
    ensures
        r@ == without_target_lines(text@, target@),
{
    let c = chars_of(text);
    let t = chars_of(target);
    let ls = split_lines(&c);
    let ghost all = views(ls@);
    let mut acc: Vec<char> = Vec::new();
    let mut i: usize = 0;
    assert(all.skip(0) == all);
    while i < ls.len()
        invariant
            i <= ls.len(),
            all == views(ls@),
            all == lines(c@),
            acc@ + join_lines(lines_without(all.skip(i as int), t@)) == join_lines(
                lines_without(all, t@),
            ),
        decreases ls.len() - i,
    {
        let l = &ls[i];
        let ghost rest = all.skip(i as int);
        assert(rest[0] == l@);
        assert(rest.drop_first() == all.skip(i + 1));
        if !contains_chars(l, &t) {
            let ghost kept = lines_without(all.skip(i + 1), t@);
            assert((seq![l@] + kept)[0] == l@);
            assert((seq![l@] + kept).drop_first() == kept);
            append_chars(&mut acc, l);
            acc.push('\n');
        }
        i += 1;
    }
    assert(all.skip(i as int).len() == 0);
    string_of(&acc)
}

/// Every line that `lines_without` keeps is a line of `ls` without `target`,
/// and where no line holds `target` every line is kept.
pub proof fn lemma_lines_without(ls: Seq<Seq<char>>, target: Seq<char>)
    ensures
        forall|i: int| 0 <= i < lines_without(ls, target).len() ==> {
            &&& !contains(#[trigger] lines_without(ls, target)[i], target)
            &&& exists|j: int| 0 <= j < ls.len() && ls[j] == lines_without(ls, target)[i]
        },
        (forall|i: int| 0 <= i < ls.len() ==> !contains(#[trigger] ls[i], target)) ==> lines_without(
            ls,
            target,
        ) == ls,
    decreases ls.len(),
{
    if ls.len() > 0 {
        let rest = ls.drop_first();
        lemma_lines_without(rest, target);
        let kept = lines_without(ls, target);
        let kept_rest = lines_without(rest, target);
        assert forall|i: int| 0 <= i < kept.len() implies {
            &&& !contains(#[trigger] kept[i], target)
            &&& exists|j: int| 0 <= j < ls.len() && ls[j] == kept[i]
        } by {
            if contains(ls[0], target) {
                assert(kept[i] == kept_rest[i]);
                let j = choose|j: int| 0 <= j < rest.len() && rest[j] == kept_rest[i];
                assert(ls[j + 1] == kept[i]);
            } else if i == 0 {
                assert(ls[0] == kept[0]);
            } else {
                assert(kept[i] == kept_rest[i - 1]);
                let j = choose|j: int| 0 <= j < rest.len() && rest[j] == kept_rest[i - 1];
                assert(ls[j + 1] == kept[i]);
            }
        }
        if forall|i: int| 0 <= i < ls.len() ==> !contains(#[trigger] ls[i], target) {
            assert(forall|i: int| 0 <= i < rest.len() ==> !contains(#[trigger] rest[i], target)) by {
                assert forall|i: int| 0 <= i < rest.len() implies !contains(#[trigger] rest[i], target) by {
                    assert(rest[i] == ls[i + 1]);
                }
            }
            assert(!contains(ls[0], target));
            assert(seq![ls[0]] + rest == ls);
        }
    }
}

/// Dropping the lines that hold `target` leaves no such line, and doing it
/// a second time changes nothing. Excluded: texts in which a kept line ends
/// with a carriage return that no line feed follows, since writing it back
/// with a line feed turns that carriage return into part of a line break.
pub proof fn lemma_remove_lines_idempotent(text: Seq<char>, target: Seq<char>)
    requires
        forall|i: int|
            0 <= i < lines(text).len() && !contains(#[trigger] lines(text)[i], target)
                ==> !ends_with_cr(lines(text)[i]),
    ensures
        forall|i: int|
            0 <= i < lines(without_target_lines(text, target)).len() ==> !contains(
                #[trigger] lines(without_target_lines(text, target))[i],
                target,
            ),
        without_target_lines(without_target_lines(text, target), target) == without_target_lines(
            text,
            target,
        ),
{
    let ls = lines(text);
    let kept = lines_without(ls, target);
    lemma_lines_without(ls, target);
    lemma_lines_no_newline(text, 0);
    assert forall|i: int| 0 <= i < kept.len() implies no_newline(#[trigger] kept[i])
        && !ends_with_cr(kept[i]) by {
        let j = choose|j: int| 0 <= j < ls.len() && ls[j] == kept[i];
        assert(no_newline(ls[j]));
        assert(!contains(ls[j], target));
    }
    lemma_lines_of_join(kept);
    lemma_lines_without(kept, target);
}

// ---------------------------------------------------------------------------
// Guest program
// ---------------------------------------------------------------------------

/// The guest program: `program_header`, the imports, then `main` wrapping
/// `main_func_code`, with the read and commit markers replaced by the zkVM's
/// own calls (reads first, then commits).
pub open spec fn guest_program(
    imports: Seq<char>,
    main_func_code: Seq<char>,
    program_header: Seq<char>,
    io_read_header: Seq<char>,
    io_commit_header: Seq<char>,
) -> Seq<char> {
    let program = program_header + imports + "pub fn main() {\n"@ + main_func_code + "\n}"@;
    replace_all(replace_all(program, IO_READ@, io_read_header), IO_COMMIT@, io_commit_header)
}

/// Every read and every commit marker of the user's program is translated:
/// whatever the imports, code and header hold, the guest program holds no
/// `zk_rust_io::read();` and no `zk_rust_io::commit`, provided the zkVM's
/// calls put in their place cannot form a marker with the text around them.
pub proof fn lemma_guest_has_no_markers(
    imports: Seq<char>,
    main_func_code: Seq<char>,
    program_header: Seq<char>,
    io_read_header: Seq<char>,
    io_commit_header: Seq<char>,
)
    requires
        seamless(io_read_header, IO_READ@),
        seamless(io_commit_header, IO_READ@),
        seamless(io_commit_header, IO_COMMIT@),
    ensures
        !contains(
            guest_program(imports, main_func_code, program_header, io_read_header, io_commit_header),
            IO_READ@,
        ),
        !contains(
            guest_program(imports, main_func_code, program_header, io_read_header, io_commit_header),
            IO_COMMIT@,
        ),
{
    reveal_strlit("zk_rust_io::read();");
    reveal_strlit("zk_rust_io::commit");
    let program = program_header + imports + "pub fn main() {\n"@ + main_func_code + "\n}"@;
    let with_reads = replace_all(program, IO_READ@, io_read_header);
    lemma_replace_leaves_none(program, IO_READ@, io_read_header, IO_READ@);
    lemma_replace_leaves_none(with_reads, IO_COMMIT@, io_commit_header, IO_READ@);
    lemma_replace_leaves_none(with_reads, IO_COMMIT@, io_commit_header, IO_COMMIT@);
}

/// A program without markers is left as it is assembled: the header, the
/// imports, then `main` wrapping the code.
pub proof fn lemma_guest_without_markers(
    imports: Seq<char>,
    main_func_code: Seq<char>,
    program_header: Seq<char>,
    io_read_header: Seq<char>,
    io_commit_header: Seq<char>,
)
    requires
        !contains(
            program_header + imports + "pub fn main() {\n"@ + main_func_code + "\n}"@,
            IO_READ@,
        ),
        !contains(
            program_header + imports + "pub fn main() {\n"@ + main_func_code + "\n}"@,
            IO_COMMIT@,
        ),
    ensures
        guest_program(imports, main_func_code, program_header, io_read_header, io_commit_header)
            == program_header + imports + "pub fn main() {\n"@ + main_func_code + "\n}"@,
{
    reveal_strlit("zk_rust_io::read();");
    reveal_strlit("zk_rust_io::commit");
    let program = program_header + imports + "pub fn main() {\n"@ + main_func_code + "\n}"@;
    lemma_replace_absent(program, IO_READ@, io_read_header);
    lemma_replace_absent(program, IO_COMMIT@, io_commit_header);
}

/// The guest program for a zkVM whose header and I/O calls are given.
pub fn format_guest(
    imports: &str,
    main_func_code: &str,
    program_header: &str,
    io_read_header: &str,
    io_commit_header: &str,
) -> (r: String)
    ensures
        r@ == guest_program(
            imports@,
            main_func_code@,
            program_header@,
            io_read_header@,
            io_commit_header@,
        ),
{
    let mut p = chars_of(program_header);
    append_chars(&mut p, &chars_of(imports));
    append_chars(&mut p, &chars_of("pub fn main() {\n"));
    append_chars(&mut p, &chars_of(main_func_code));
    append_chars(&mut p, &chars_of("\n}"));
    let with_reads = replace_chars(&p, &chars_of(IO_READ), &chars_of(io_read_header));
    let with_commits = replace_chars(&with_reads, &chars_of(IO_COMMIT), &chars_of(io_commit_header));
    string_of(&with_commits)
}

// ---------------------------------------------------------------------------
// Dependencies
// ---------------------------------------------------------------------------

/// Header of the dependency table of a `Cargo.toml`.
pub const DEPENDENCIES_HEADER: &'static str = "[dependencies]";

/// Everything after the first `[dependencies]` header of a manifest.
pub open spec fn dependencies_after_header(toml: Seq<char>) -> Option<Seq<char>> {
    match find(toml, DEPENDENCIES_HEADER@) {
        Some(k) => Some(toml.skip(k + DEPENDENCIES_HEADER@.len())),
        None => None,
    }
}

/// Nothing after the header is dropped: where the manifest has a
/// `[dependencies]` header, the first one at `k`, what is copied is all that
/// follows it, so the manifest is its text up to `k`, the header, and what is
/// copied; where it has none, nothing is copied.
pub proof fn lemma_dependencies_whole_rest(toml: Seq<char>)
    ensures
        find(toml, DEPENDENCIES_HEADER@) matches Some(k) ==> (dependencies_after_header(toml) matches Some(
            rest,
        ) && toml == toml.take(k) + DEPENDENCIES_HEADER@ + rest),
        !contains(toml, DEPENDENCIES_HEADER@) <==> dependencies_after_header(toml) is None,
{
    lemma_find_from(toml, DEPENDENCIES_HEADER@, 0);
    crate::text::lemma_find_contains(toml, DEPENDENCIES_HEADER@);
    if let Some(k) = find(toml, DEPENDENCIES_HEADER@) {
        let h = DEPENDENCIES_HEADER@;
        assert(toml.subrange(k, k + h.len()) == h);
        assert(toml == toml.take(k) + h + toml.skip(k + h.len()));
    }
}

/// The text after the first `[dependencies]` header of the user's
/// `Cargo.toml`, which is appended to the zkVM's manifests; `None` where the
/// manifest has no such header.
pub fn dependencies_section(toml: &str) -> (r: Option<String>)
    ensures
        r.deep_view() == dependencies_after_header(toml@),
{
    let t = chars_of(toml);
    let h = chars_of(DEPENDENCIES_HEADER);
    match find_chars_from(&t, &h, 0) {
        Some(k) => {
            proof {
                lemma_find_from(t@, h@, 0);
            }
            assert(k + h.len() <= t.len());
            let rest = slice_chars(&t, k + h.len(), t.len());
            assert(rest@ == t@.skip(k + h@.len()));
            Some(string_of(&rest))
        },
        None => None,
    }
}

// ---------------------------------------------------------------------------
// Directory structure
// ---------------------------------------------------------------------------

/// What exists in a program directory, as far as its validation looks.
pub struct ProgramLayout {
    /// `Cargo.toml` exists in the directory.
    pub cargo_toml: bool,
    /// `src/` exists in the directory.
    pub src_dir: bool,
    /// `src/main.rs` exists.
    pub main_rs: bool,
}

/// Why a program directory is not laid out as zkRust expects.
#[derive(Debug, PartialEq, Eq, Structural)]
pub enum LayoutError {
    /// The directory has no `Cargo.toml`.
    CargoTomlNotFound,
    /// The directory has no `src/`.
    SrcDirNotFound,
    /// `src/` has no `main.rs`.
    MainRsNotFound,
}

impl LayoutError {
    /// The message reported for this error.
    pub fn message(&self) -> (r: &'static str)
        ensures
            r@ == match self {
                LayoutError::CargoTomlNotFound => "Cargo.toml not found."@,
                LayoutError::SrcDirNotFound => "src/ directory not found in root"@,
                LayoutError::MainRsNotFound => "main.rs not found in src/ directory in root"@,
            },
    {
        match self {
            LayoutError::CargoTomlNotFound => "Cargo.toml not found.",
            LayoutError::SrcDirNotFound => "src/ directory not found in root",
            LayoutError::MainRsNotFound => "main.rs not found in src/ directory in root",
        }
    }
}

/// Checks that a program directory holds `Cargo.toml` and `src/main.rs`; a
/// `lib/` directory is optional. The first missing entry, in that order, is
/// the error.
pub fn validate_directory_structure(layout: &ProgramLayout) -> (r: Result<(), LayoutError>)
    ensures
        !layout.cargo_toml ==> r == Err::<(), LayoutError>(LayoutError::CargoTomlNotFound),
        layout.cargo_toml && !layout.src_dir ==> r == Err::<(), LayoutError>(
            LayoutError::SrcDirNotFound,
        ),
        layout.cargo_toml && layout.src_dir && !layout.main_rs ==> r == Err::<(), LayoutError>(
            LayoutError::MainRsNotFound,
        ),
        r is Ok <==> layout.cargo_toml && layout.src_dir && layout.main_rs,
{
    if !layout.cargo_toml {
        return Err(LayoutError::CargoTomlNotFound);
    }
    if !layout.src_dir {
        return Err(LayoutError::SrcDirNotFound);
    }
    if !layout.main_rs {
        return Err(LayoutError::MainRsNotFound);
    }
    Ok(())
}


// ---------------------------------------------------------------------------
// Regular expressions
// ---------------------------------------------------------------------------

/// What a regular expression compiled from `pattern` by the `regex` crate
/// captures in `line`: `None` where the pattern does not compile; otherwise,
/// for each successive non-overlapping match, its first capture group, or
/// `None` where that group took no part in the match.
pub uninterp spec fn regex_captures(pattern: Seq<char>, line: Seq<char>) -> Option<
    Seq<Option<Seq<char>>>,
>;

/// Trusted: compiles `pattern` with `regex::Regex::new` and walks
/// `Regex::captures_iter` over `line`, keeping for each match the text of its
/// capture group 1 (`Captures::get(1)`). The contract claims only that the
/// result is the named `regex_captures` of the two arguments; what the regex
/// engine matches is not stated.
#[verifier::external_body]
fn regex_group_one(pattern: &str, line: &str) -> (r: Option<Vec<Option<String>>>)
    ensures
        r.deep_view() == regex_captures(pattern@, line@),
{
    let re = match regex::Regex::new(pattern) {
        Ok(re) => re,
        Err(_) => return None,
    };
    let mut out = Vec::new();
    for cap in re.captures_iter(line) {
        out.push(cap.get(1).map(|m| m.as_str().to_string()));
    }
    Some(out)
}

/// The captured texts of a line, skipping groups that did not participate.
pub open spec fn present(caps: Seq<Option<Seq<char>>>) -> Seq<Seq<char>>
    decreases caps.len(),
{
    if caps.len() == 0 {
        seq![]
    } else {
        (match caps[0] {
            Some(v) => seq![v],
            None => seq![],
        }) + present(caps.drop_first())
    }
}

/// `pattern` compiles, before any line is searched, and on every line of
/// `ls`.
pub open spec fn pattern_compiles_on(pattern: Seq<char>, ls: Seq<Seq<char>>) -> bool {
    &&& regex_captures(pattern, Seq::<char>::empty()) is Some
    &&& forall|i: int| 0 <= i < ls.len() ==> (#[trigger] regex_captures(pattern, ls[i])) is Some
}

/// The first-group captures of `pattern` over the lines `ls`, line by line.
pub open spec fn captured_values(pattern: Seq<char>, ls: Seq<Seq<char>>) -> Seq<Seq<char>>
    decreases ls.len(),
{
    if ls.len() == 0 {
        seq![]
    } else {
        present(regex_captures(pattern, ls[0])->0) + captured_values(pattern, ls.drop_first())
    }
}

/// The captured texts of one line's captures, skipping absent groups.
fn present_values(caps: &Vec<Option<String>>, out: &mut Vec<String>)
    ensures
        string_views(final(out)@) == string_views(old(out)@) + present(caps.deep_view()),
{
    let ghost all = caps.deep_view();
    let mut i: usize = 0;
    assert(all.skip(0) == all);
    while i < caps.len()
        invariant
            i <= caps.len(),
            all == caps.deep_view(),
            string_views(out@) + present(all.skip(i as int)) == string_views(old(out)@)
                + present(all),
        decreases caps.len() - i,
    {
        let ghost rest = all.skip(i as int);
        assert(rest.drop_first() == all.skip(i + 1));
        assert(rest[0] == caps@[i as int].deep_view());
        let ghost before = string_views(out@);
        match &caps[i] {
            Some(v) => {
                out.push(String::from_str(v.as_str()));
                assert(string_views(out@) == before + seq![v@]);
            },
            None => {
                assert(Seq::<Seq<char>>::empty() + present(all.skip(i + 1)) == present(
                    all.skip(i + 1),
                ));
            },
        }
        i += 1;
    }
    assert(all.skip(i as int).len() == 0);
}

/// The text of capture group 1 of every match of `regex` in each line of
/// `text`, line by line and match by match; matches whose group took no part
/// are skipped. `regex` must compile.
pub fn extract_regex(text: &str, regex: &str) -> (r: Vec<String>)
    requires
        pattern_compiles_on(regex@, lines(text@)),
    ensures
        string_views(r@) == captured_values(regex@, lines(text@)),
{
    let c = chars_of(text);
    let ls = split_lines(&c);
    let ghost all = views(ls@);
    let mut out: Vec<String> = Vec::new();
    let mut i: usize = 0;
    assert(all.skip(0) == all);
    while i < ls.len()
        invariant
            i <= ls.len(),
            all == views(ls@),
            pattern_compiles_on(regex@, all),
            string_views(out@) + captured_values(regex@, all.skip(i as int)) == captured_values(
                regex@,
                all,
            ),
        decreases ls.len() - i,
    {
        let ghost rest = all.skip(i as int);
        assert(rest.drop_first() == all.skip(i + 1));
        let line = string_of(&ls[i]);
        assert(line@ == all[i as int]);
        assert(regex_captures(regex@, all[i as int]) is Some);
        match regex_group_one(regex, line.as_str()) {
            Some(caps) => {
                present_values(&caps, &mut out);
            },
            None => {
                assert(false);
            },
        }
        i += 1;
    }
    assert(all.skip(i as int).len() == 0);
    out
}

/// `extract_regex` where `regex` compiles, before any line and on every line
/// of `text`; `None` otherwise, where extracting would fail.
pub fn try_extract_regex(text: &str, regex: &str) -> (r: Option<Vec<String>>)
    ensures
        r is Some <==> pattern_compiles_on(regex@, lines(text@)),
        r matches Some(v) ==> string_views(v@) == captured_values(regex@, lines(text@)),
{
    let empty = "";
    proof {
        reveal_strlit("");
    }
    assert(empty@ == Seq::<char>::empty());
    if regex_group_one(regex, empty).is_none() {
        return None;
    }
    let c = chars_of(text);
    let ls = split_lines(&c);
    let ghost all = views(ls@);
    let mut i: usize = 0;
    while i < ls.len()
        invariant
            i <= ls.len(),
            all == views(ls@),
            all == lines(text@),
            regex_captures(regex@, Seq::<char>::empty()) is Some,
            forall|j: int| 0 <= j < i ==> (#[trigger] regex_captures(regex@, all[j])) is Some,
        decreases ls.len() - i,
    {
        let line = string_of(&ls[i]);
        assert(line@ == all[i as int]);
        if regex_group_one(regex, line.as_str()).is_none() {
            assert(regex_captures(regex@, all[i as int]) is None);
            assert(!pattern_compiles_on(regex@, lines(text@)));
            return None;
        }
        i += 1;
    }
    Some(extract_regex(text, regex))
}

} // verus!
