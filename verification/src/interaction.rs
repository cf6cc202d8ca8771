//! Building the host code that interacts with a chosen guest function: the
//! menu of functions offered, the reading of the user's choice, and the code
//! generated for the function chosen.
use vstd::prelude::*;
use crate::text::{
    append_chars, chars_of, count_char, decimal, find_from, is_whitespace, lemma_count_concat,
    lemma_count_zero, lemma_split_first, lemma_split_len, lemma_trim_count, lemma_trim_end_shape,
    lemma_trim_idempotent, lemma_trim_start_shape, trim_end, trim_start, join_chars, join_with, lines, replace_all, replace_chars, slice_chars,
    split_chars_on, split_lines, split_on, split_words, string_of, string_views, trim, trim_chars,
    views, words,
};

verus! {

/// The command that proves the chosen function with Jolt.
pub const COMMANDS_PROVE: &'static str = "Commands::ProveJolt({args})";

/// The host `main` that proves and verifies the chosen function; the names
/// in braces are filled in.
pub const HOST_MAIN: &'static str = "pub fn main() {{\n        let (prove_{func}, verify_{func}) = guest::build_{func}();\n\n        let ({param_decls}) = ({params});\n        let (output, proof) = {commands_prove};\n        let is_valid = verify_{func}(proof);\n\n        println!(\"output: {{}}\", output);\n        println!(\"valid: {{}}\", is_valid);\n    }}";

// ---------------------------------------------------------------------------
// Signatures
// ---------------------------------------------------------------------------

/// The number of comma-separated parts of a signature
/// (`signature.split(',').count()`).
pub fn count_parameters(signature: &str) -> (r: usize)
    ensures
        r == split_on(signature@, ',').len(),
{
    let s = chars_of(signature);
    split_chars_on(&s, ',').len()
}

/// `s` without any of the copies of `c` at its end (`trim_end_matches`).
pub open spec fn trim_end_char(s: Seq<char>, c: char) -> Seq<char>
    decreases s.len(),
{
    if s.len() > 0 && s.last() == c {
        trim_end_char(s.drop_last(), c)
    } else {
        s
    }
}

/// The trimmed pieces.
pub open spec fn trimmed(pieces: Seq<Seq<char>>) -> Seq<Seq<char>> {
    pieces.map_values(|p: Seq<char>| trim(p))
}

/// The parameters of a signature: the text after its first `(` and up to
/// the next `(` (or the end), without trailing `)`s, split at commas, each
/// part trimmed. A signature without `(` has the single empty parameter.
pub open spec fn params_of(signature: Seq<char>) -> Seq<Seq<char>> {
    let pieces = split_on(trim(signature), '(');
    let inner = if pieces.len() > 1 {
        pieces[1]
    } else {
        seq![]
    };
    trimmed(split_on(trim_end_char(inner, ')'), ','))
}

/// The parameters of a signature, as `params_of` describes them.
pub fn extract_params(signature: &str) -> (r: Vec<String>)
    ensures
        string_views(r@) == params_of(signature@),
{
    let s = chars_of(signature);
    let t = trim_chars(&s);
    let pieces = split_chars_on(&t, '(');
    let mut inner: Vec<char> = if pieces.len() > 1 {
        let p = &pieces[1];
        assert(views(pieces@)[1] == p@);
        let mut v: Vec<char> = Vec::new();
        append_chars(&mut v, p);
        v
    } else {
        Vec::new()
    };
    assert(pieces.len() <= 1 ==> inner@ == Seq::<char>::empty());
    let ghost inner0 = inner@;
    while inner.len() > 0 && inner[inner.len() - 1] == ')'
        invariant
            trim_end_char(inner@, ')') == trim_end_char(inner0, ')'),
        decreases inner.len(),
    {
        let ghost before = inner@;
        inner.pop();
        assert(inner@ == before.drop_last());
    }
    let parts = split_chars_on(&inner, ',');
    let ghost ps = views(parts@);
    let mut out: Vec<String> = Vec::new();
    let mut i: usize = 0;
    while i < parts.len()
        invariant
            i <= parts.len(),
            ps == views(parts@),
            string_views(out@) == trimmed(ps).take(i as int),
        decreases parts.len() - i,
    {
        let p = trim_chars(&parts[i]);
        assert(ps[i as int] == parts@[i as int]@);
        let ghost before = string_views(out@);
        out.push(string_of(&p));
        assert(string_views(out@) == before.push(p@));
        assert(trimmed(ps).take(i + 1) == trimmed(ps).take(i as int).push(trim(ps[i as int])));
        i += 1;
    }
    assert(trimmed(ps).take(parts.len() as int) == trimmed(ps));
    out
}

/// Dropping copies of `c` from the end keeps every other character.
proof fn lemma_trim_end_char_count(s: Seq<char>, c: char, d: char)
    requires
        c != d,
    ensures
        count_char(trim_end_char(s, c), d) == count_char(s, d),
    decreases s.len(),
{
    if s.len() > 0 && s.last() == c {
        lemma_trim_end_char_count(s.drop_last(), c, d);
        assert(s == s.drop_last() + seq![c]);
        lemma_count_concat(s.drop_last(), seq![c], d);
        assert(seq![c].drop_first() == Seq::<char>::empty());
        assert(count_char(Seq::<char>::empty(), d) == 0);
        assert(count_char(seq![c], d) == 0);
    }
}

/// A signature with a single `(`, and no comma before it, has as many
/// parameters as `count_parameters` counts comma-separated parts, and each
/// parameter is already trimmed.
pub proof fn lemma_params_match_count(signature: Seq<char>)
    requires
        count_char(signature, '(') == 1,
        forall|i: int, j: int|
            0 <= i < j < signature.len() && signature[i] == ',' ==> signature[j] != '(',
    ensures
        params_of(signature).len() == split_on(signature, ',').len(),
        forall|i: int|
            0 <= i < params_of(signature).len() ==> trim(#[trigger] params_of(signature)[i])
                == params_of(signature)[i],
{
    assert(!is_whitespace('(') && !is_whitespace(','));
    let ts = trim(signature);
    lemma_trim_count(signature, '(');
    lemma_trim_count(signature, ',');
    // The trimmed signature is a stretch of the signature.
    lemma_trim_start_shape(signature);
    let u = trim_start(signature);
    let a = signature.len() - u.len();
    lemma_trim_end_shape(u);
    assert(ts == trim_end(u));
    assert forall|i: int| 0 <= i < ts.len() implies ts[i] == signature[a + i] by {
        assert(ts[i] == u[i]);
    }
    // It has its single `(` at some `k`.
    lemma_split_first(ts, '(');
    let k = find_from(ts, seq!['('], 0)->0;
    let before = ts.take(k);
    let after = ts.skip(k + 1);
    lemma_count_concat(before, seq!['('] + after, '(');
    assert((seq!['('] + after).drop_first() == after);
    assert((seq!['('] + after)[0] == '(');
    assert(count_char(after, '(') == 0);
    lemma_split_first(after, '(');
    if let Some(m) = find_from(after, seq!['('], 0) {
        lemma_count_concat(after.take(m), seq!['('] + after.skip(m + 1), '(');
        assert((seq!['('] + after.skip(m + 1))[0] == '(');
    }
    assert(split_on(ts, '(') == seq![before] + seq![after]);
    // No comma comes before it.
    assert(ts[k] == '(');
    assert forall|i: int| 0 <= i < before.len() implies before[i] != ',' by {
        assert(ts[i] == signature[a + i]);
        assert(ts[k] == signature[a + k]);
    }
    lemma_count_zero(before, ',');
    lemma_count_concat(before, seq!['('] + after, ',');
    lemma_trim_end_char_count(after, ')', ',');
    lemma_split_len(trim_end_char(after, ')'), ',');
    lemma_split_len(signature, ',');
    let pieces = split_on(trim_end_char(after, ')'), ',');
    assert(params_of(signature) == trimmed(pieces));
    assert forall|i: int| 0 <= i < params_of(signature).len() implies trim(
        #[trigger] params_of(signature)[i],
    ) == params_of(signature)[i] by {
        lemma_trim_idempotent(pieces[i]);
    }
}

// ---------------------------------------------------------------------------
// Generated code
// ---------------------------------------------------------------------------

/// Each parameter with `_param` after it.
pub open spec fn param_names(args: Seq<Seq<char>>) -> Seq<Seq<char>> {
    args.map_values(|a: Seq<char>| a + "_param"@)
}

/// The host `main` for `function_name` called with `args`: the template's
/// `{func}`, `{param_decls}`, `{params}` and `{commands_prove}` filled in, in
/// that order, with the name, the parameters, the `_param` names and the
/// Jolt prove command.
pub open spec fn interaction_code(function_name: Seq<char>, args: Seq<Seq<char>>) -> Seq<char> {
    let param_decls = join_with(args, ", "@);
    let params = join_with(param_names(args), ", "@);
    let commands_prove = replace_all(COMMANDS_PROVE@, "{args}"@, "("@ + params + ")"@);
    let with_func = replace_all(HOST_MAIN@, "{func}"@, function_name);
    let with_decls = replace_all(with_func, "{param_decls}"@, param_decls);
    let with_params = replace_all(with_decls, "{params}"@, params);
    replace_all(with_params, "{commands_prove}"@, commands_prove)
}

/// The host `main` that proves and verifies `function_name` on `args`.
pub fn generate_interaction_code(function_name: &str, args: &Vec<String>) -> (r: String)
    ensures
        r@ == interaction_code(function_name@, string_views(args@)),
{
    let ghost all = string_views(args@);
    let mut decl_parts: Vec<Vec<char>> = Vec::new();
    let mut param_parts: Vec<Vec<char>> = Vec::new();
    let mut i: usize = 0;
    while i < args.len()
        invariant
            i <= args.len(),
            all == string_views(args@),
            views(decl_parts@) == all.take(i as int),
            views(param_parts@) == param_names(all).take(i as int),
        decreases args.len() - i,
    {
        let a = chars_of(args[i].as_str());
        assert(a@ == all[i as int]);
        let mut p = chars_of(args[i].as_str());
        append_chars(&mut p, &chars_of("_param"));
        let ghost d0 = views(decl_parts@);
        let ghost p0 = views(param_parts@);
        decl_parts.push(a);
        param_parts.push(p);
        assert(views(decl_parts@) == d0.push(a@));
        assert(views(param_parts@) == p0.push(p@));
        assert(all.take(i + 1) == all.take(i as int).push(all[i as int]));
        assert(param_names(all).take(i + 1) == param_names(all).take(i as int).push(
            all[i as int] + "_param"@,
        ));
        i += 1;
    }
    assert(all.take(args.len() as int) == all);
    assert(param_names(all).take(args.len() as int) == param_names(all));
    let sep = chars_of(", ");
    let param_decls = join_chars(&decl_parts, &sep);
    let params = join_chars(&param_parts, &sep);
    let mut call = chars_of("(");
    append_chars(&mut call, &params);
    append_chars(&mut call, &chars_of(")"));
    let commands_prove = replace_chars(&chars_of(COMMANDS_PROVE), &chars_of("{args}"), &call);
    let with_func = replace_chars(&chars_of(HOST_MAIN), &chars_of("{func}"), &chars_of(function_name));
    let with_decls = replace_chars(&with_func, &chars_of("{param_decls}"), &param_decls);
    let with_params = replace_chars(&with_decls, &chars_of("{params}"), &params);
    let code = replace_chars(&with_params, &chars_of("{commands_prove}"), &commands_prove);
    string_of(&code)
}

// ---------------------------------------------------------------------------
// Choosing a function
// ---------------------------------------------------------------------------

/// The trimmed lines of `ls` that are not blank, in order.
pub open spec fn menu_entries(ls: Seq<Seq<char>>) -> Seq<Seq<char>>
    decreases ls.len(),
{
    if ls.len() == 0 {
        seq![]
    } else if trim(ls[0]).len() == 0 {
        menu_entries(ls.drop_first())
    } else {
        seq![trim(ls[0])] + menu_entries(ls.drop_first())
    }
}

/// The functions offered for a choice: every line of `content` that is not
/// blank, trimmed, in order. The menu shows the `i`-th of them as number
/// `i + 1`.
pub fn function_menu(content: &str) -> (r: Vec<String>)
    ensures
        string_views(r@) == menu_entries(lines(content@)),
{
    let c = chars_of(content);
    let ls = split_lines(&c);
    let ghost all = views(ls@);
    let mut out: Vec<String> = Vec::new();
    let mut i: usize = 0;
    assert(all.skip(0) == all);
    while i < ls.len()
        invariant
            i <= ls.len(),
            all == views(ls@),
            string_views(out@) + menu_entries(all.skip(i as int)) == menu_entries(all),
        decreases ls.len() - i,
    {
        let ghost rest = all.skip(i as int);
        assert(rest.drop_first() == all.skip(i + 1));
        assert(rest[0] == ls@[i as int]@);
        let t = trim_chars(&ls[i]);
        if t.len() > 0 {
            let ghost before = string_views(out@);
            out.push(string_of(&t));
            assert(string_views(out@) == before.push(t@));
        }
        i += 1;
    }
    assert(all.skip(i as int).len() == 0);
    out
}

/// Is `c` an ASCII decimal digit?
pub open spec fn is_digit(c: char) -> bool {
    '0' <= c && c <= '9'
}

/// The value of the decimal digits `ds`.
pub open spec fn decimal_value(ds: Seq<char>) -> nat
    decreases ds.len(),
{
    if ds.len() == 0 {
        0
    } else {
        decimal_value(ds.drop_last()) * 10 + ((ds.last() as int) - ('0' as int)) as nat
    }
}

/// The digits of a number: `s` without a leading `+`.
pub open spec fn unsigned_digits(s: Seq<char>) -> Seq<char> {
    if s.len() > 0 && s[0] == '+' {
        s.drop_first()
    } else {
        s
    }
}

/// Every character of `ds` is a decimal digit.
pub open spec fn all_digits(ds: Seq<char>) -> bool {
    forall|i: int| 0 <= i < ds.len() ==> is_digit(#[trigger] ds[i])
}

/// The number that `str::parse::<usize>` reads from `s`: an optional `+`,
/// then one or more decimal digits whose value fits in a `usize`.
pub open spec fn parsed_usize(s: Seq<char>) -> Option<nat> {
    let ds = unsigned_digits(s);
    if ds.len() == 0 || !all_digits(ds) || decimal_value(ds) > usize::MAX {
        None
    } else {
        Some(decimal_value(ds))
    }
}

/// A number read from some of the leading digits is at most the number read
/// from all of them.
proof fn lemma_decimal_prefix(ds: Seq<char>, k: int)
    requires
        0 <= k <= ds.len(),
        forall|i: int| 0 <= i < ds.len() ==> is_digit(#[trigger] ds[i]),
    ensures
        decimal_value(ds.take(k)) <= decimal_value(ds),
    decreases ds.len(),
{
    if k < ds.len() {
        assert(ds.drop_last().take(k) == ds.take(k));
        lemma_decimal_prefix(ds.drop_last(), k);
    } else {
        assert(ds.take(k) == ds);
    }
}

/// `s` read as a `usize`, as `str::parse::<usize>` reads it.
pub fn parse_usize(s: &[char]) -> (r: Option<usize>)
    ensures
        r matches Some(n) ==> parsed_usize(s@) == Some(n as nat),
        r is None ==> parsed_usize(s@) is None,
{
    let start: usize = if s.len() > 0 && s[0] == '+' {
        1
    } else {
        0
    };
    let ghost ds = s@.skip(start as int);
    assert(start == 1 ==> ds == s@.drop_first());
    assert(start == 0 ==> ds == s@);
    assert(unsigned_digits(s@) == ds);
    if start == s.len() {
        return None;
    }
    if !all_digits_from(s, start) {
        proof {
            let j = choose|j: int| start <= j < s@.len() && !is_digit(s@[j]);
            assert(ds[j - start] == s@[j]);
        }
        return None;
    }
    assert forall|j: int| 0 <= j < ds.len() implies is_digit(#[trigger] ds[j]) by {
        assert(ds[j] == s@[start + j]);
    }
    let mut v: usize = 0;
    let mut i: usize = start;
    assert(ds.take(0) == Seq::<char>::empty());
    while i < s.len()
        invariant
            start <= i <= s.len(),
            ds == s@.skip(start as int),
            ds == unsigned_digits(s@),
            ds.len() == s.len() - start,
            forall|j: int| 0 <= j < ds.len() ==> is_digit(#[trigger] ds[j]),
            v == decimal_value(ds.take(i - start)),
        decreases s.len() - i,
    {
        let c = s[i];
        assert(c == ds[i - start]);
        assert(is_digit(ds[i - start]));
        let d = (c as u32 - '0' as u32) as usize;
        assert(ds.take(i - start + 1).drop_last() == ds.take(i - start));
        assert(ds.take(i - start + 1).last() == c);
        assert(decimal_value(ds.take(i - start + 1)) == v * 10 + d);
        if v > (usize::MAX - d) / 10 {
            proof {
                assert(v * 10 + d > usize::MAX) by (nonlinear_arith)
                    requires
                        v > (usize::MAX - d) / 10,
                        d <= 9,
                ;
                lemma_decimal_prefix(ds, i - start + 1);
                assert(decimal_value(ds) > usize::MAX);
            }
            return None;
        }
        proof {
            assert(v * 10 + d <= usize::MAX) by (nonlinear_arith)
                requires
                    v <= (usize::MAX - d) / 10,
                    d <= 9,
            ;
        }
        v = v * 10 + d;
        i += 1;
    }
    assert(ds.take(i - start) == ds);
    Some(v)
}

/// The decimal digits of a number are digits, begin with no `+`, and read
/// back as the number.
proof fn lemma_decimal_digits(n: nat)
    ensures
        decimal(n).len() > 0,
        all_digits(decimal(n)),
        decimal(n)[0] != '+',
        decimal_value(decimal(n)) == n,
    decreases n,
{
    if n >= 10 {
        lemma_decimal_digits(n / 10);
        let x = decimal(n / 10);
        let d = (('0' as int) + n % 10) as char;
        let s = x + seq![d];
        assert(s.drop_last() == x);
        assert(s.last() == d);
        assert(s[0] == x[0]);
        assert(n == (n / 10) * 10 + n % 10) by (nonlinear_arith);
        assert((d as int) - ('0' as int) == n % 10);
        assert(decimal(n) == s);
        assert(decimal_value(s) == decimal_value(x) * 10 + ((d as int) - ('0' as int)) as nat);
        assert forall|i: int| 0 <= i < s.len() implies is_digit(#[trigger] s[i]) by {
            if i < x.len() {
                assert(s[i] == x[i]);
            }
        }
    } else {
        let s = decimal(n);
        assert(s.drop_last() == Seq::<char>::empty());
        assert((s.last() as int) - ('0' as int) == n);
        assert(decimal_value(s) == decimal_value(s.drop_last()) * 10 + ((s.last() as int) - ('0' as int)) as nat);
    }
}

/// Reading back the decimal text of a number gives the number: what
/// `to_string` writes of a `usize`, `str::parse::<usize>` reads.
pub proof fn lemma_parse_decimal(n: nat)
    requires
        n <= usize::MAX,
    ensures
        parsed_usize(decimal(n)) == Some(n),
{
    lemma_decimal_digits(n);
}

/// Every character of `s` from index `from` on is a decimal digit.
fn all_digits_from(s: &[char], from: usize) -> (r: bool)
    ensures
        r == (forall|j: int| from <= j < s.len() ==> is_digit(#[trigger] s@[j])),
{
    let mut i = from;
    while i < s.len()
        invariant
            from <= i,
            forall|j: int| from <= j < i ==> is_digit(#[trigger] s@[j]),
        decreases s.len() - i,
    {
        if !('0' <= s[i] && s[i] <= '9') {
            assert(!is_digit(s@[i as int]));
            return false;
        }
        i += 1;
    }
    true
}

/// Why a choice from the menu is refused.
#[derive(Debug, PartialEq, Eq, Structural)]
pub enum ChoiceError {
    /// The answer is not a number.
    NotANumber,
    /// The number is not that of a function on the menu.
    InvalidChoice,
}

/// The function that the answer `choice` picks from `functions`: the answer,
/// trimmed, is read as a number `n` from 1 to the number of functions, and
/// picks the `n`-th.
pub fn pick_function(functions: &Vec<String>, choice: &str) -> (r: Result<String, ChoiceError>)
    ensures
        parsed_usize(trim(choice@)) is None ==> r == Err::<String, ChoiceError>(
            ChoiceError::NotANumber,
        ),
        parsed_usize(trim(choice@)) matches Some(n) ==> {
            if 0 < n <= functions@.len() {
                r matches Ok(f) && f@ == functions@[n - 1]@
            } else {
                r == Err::<String, ChoiceError>(ChoiceError::InvalidChoice)
            }
        },
{
    let c = chars_of(choice);
    let t = trim_chars(&c);
    match parse_usize(&t) {
        Some(n) => {
            if n > 0 && n <= functions.len() {
                Ok(String::from_str(functions[n - 1].as_str()))
            } else {
                Err(ChoiceError::InvalidChoice)
            }
        },
        None => Err(ChoiceError::NotANumber),
    }
}

/// The chosen menu entry split into the function's name, its first word,
/// and its signature, the other words joined by single spaces.
pub fn split_chosen_function(chosen: &str) -> (r: (String, String))
    requires
        words(chosen@).len() > 0,
    ensures
        r.0@ == words(chosen@)[0],
        r.1@ == join_with(words(chosen@).drop_first(), " "@),
{
    let c = chars_of(chosen);
    let ws = split_words(&c);
    assert(views(ws@)[0] == ws@[0]@);
    let name = string_of(&ws[0]);
    let mut rest: Vec<Vec<char>> = Vec::new();
    let mut i: usize = 1;
    while i < ws.len()
        invariant
            1 <= i <= ws.len(),
            views(ws@) == words(chosen@),
            views(rest@) == views(ws@).subrange(1, i as int),
        decreases ws.len() - i,
    {
        let w = slice_chars(&ws[i], 0, ws[i].len());
        assert(w@ == ws@[i as int]@);
        let ghost before = views(rest@);
        rest.push(w);
        assert(views(rest@) == before.push(w@));
        assert(views(ws@).subrange(1, i + 1) == views(ws@).subrange(1, i as int).push(
            ws@[i as int]@,
        ));
        i += 1;
    }
    assert(views(ws@).subrange(1, ws.len() as int) == views(ws@).drop_first());
    let signature = join_chars(&rest, &chars_of(" "));
    (name, string_of(&signature))
}

} // verus!
