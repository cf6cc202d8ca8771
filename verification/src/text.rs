//! Character-level text operations on which the source rewriting rests.
//!
//! Every operation is stated over `Seq<char>`, the view of a `String`, with the
//! meaning that the corresponding `str` method of std documents.
use vstd::prelude::*;

verus! {

// ---------------------------------------------------------------------------
// Conversions between strings and character vectors
// ---------------------------------------------------------------------------

/// Appends one character to a `String`.
///
/// Trusted: wraps `String::push`, which std documents as appending the given
/// `char` to the end of the string.
#[verifier::external_body]
fn string_push(s: &mut String, c: char)
    ensures
        final(s)@ == old(s)@.push(c),
{
    s.push(c);
}

/// The characters of a string slice, in order.
pub fn chars_of(s: &str) -> (r: Vec<char>)
    ensures
        r@ == s@,
{
    let mut r: Vec<char> = Vec::new();
    for c in it: s.chars()
        invariant
            r@ == it.seq().take(it.index() as int),
            it.seq() == s@,
    {
        r.push(c);
    }
    r
}

/// A `String` holding the given characters.
pub fn string_of(cs: &[char]) -> (r: String)
    ensures
        r@ == cs@,
{
    let mut r = String::new();
    let mut i: usize = 0;
    while i < cs.len()
        invariant
            i <= cs.len(),
            r@ == cs@.take(i as int),
        decreases cs.len() - i,
    {
        string_push(&mut r, cs[i]);
        assert(cs@.take(i + 1) == cs@.take(i as int).push(cs@[i as int]));
        i += 1;
    }
    assert(cs@.take(cs.len() as int) == cs@);
    r
}

/// Appends all of `src` to the end of `dst`.
pub fn append_chars(dst: &mut Vec<char>, src: &[char])
    ensures
        final(dst)@ == old(dst)@ + src@,
{
    let mut i: usize = 0;
    while i < src.len()
        invariant
            i <= src.len(),
            dst@ == old(dst)@ + src@.take(i as int),
        decreases src.len() - i,
    {
        dst.push(src[i]);
        assert(src@.take(i + 1) == src@.take(i as int).push(src@[i as int]));
        i += 1;
    }
    assert(src@.take(src.len() as int) == src@);
}

/// The characters `s[from..to]` as a new vector.
pub fn slice_chars(s: &[char], from: usize, to: usize) -> (r: Vec<char>)
    requires
        from <= to <= s.len(),
    ensures
        r@ == s@.subrange(from as int, to as int),
{
    let mut r: Vec<char> = Vec::new();
    let mut i: usize = from;
    while i < to
        invariant
            from <= i <= to <= s.len(),
            r@ == s@.subrange(from as int, i as int),
        decreases to - i,
    {
        r.push(s[i]);
        assert(s@.subrange(from as int, i + 1) == s@.subrange(from as int, i as int).push(
            s@[i as int],
        ));
        i += 1;
    }
    r
}

// ---------------------------------------------------------------------------
// Occurrences and search
// ---------------------------------------------------------------------------

/// `p` occurs in `s` starting at index `i`.
pub open spec fn occurs_at(s: Seq<char>, p: Seq<char>, i: int) -> bool {
    0 <= i && i + p.len() <= s.len() && s.subrange(i, i + p.len()) == p
}

/// `p` occurs somewhere in `s` (as `str::contains` decides).
pub open spec fn contains(s: Seq<char>, p: Seq<char>) -> bool {
    exists|i: int| occurs_at(s, p, i)
}

/// The first index at or after `from` at which `p` occurs in `s`
/// (what `s[from..].find(p)` finds, counted from the start of `s`).
pub open spec fn find_from(s: Seq<char>, p: Seq<char>, from: int) -> Option<int>
    decreases s.len() + 1 - from,
{
    if from < 0 || from + p.len() > s.len() {
        None
    } else if occurs_at(s, p, from) {
        Some(from)
    } else {
        find_from(s, p, from + 1)
    }
}

/// The first occurrence of `p` in `s` (what `str::find` finds).
pub open spec fn find(s: Seq<char>, p: Seq<char>) -> Option<int> {
    find_from(s, p, 0)
}

/// What `find_from` finds is the first occurrence at or after `from`.
pub proof fn lemma_find_from(s: Seq<char>, p: Seq<char>, from: int)
    requires
        0 <= from,
    ensures
        find_from(s, p, from) matches Some(k) ==> {
            &&& from <= k
            &&& k + p.len() <= s.len()
            &&& occurs_at(s, p, k)
            &&& forall|j: int| from <= j < k ==> !occurs_at(s, p, j)
        },
        find_from(s, p, from) is None ==> forall|j: int| from <= j ==> !occurs_at(s, p, j),
    decreases s.len() + 1 - from,
{
    if from + p.len() > s.len() {
    } else if occurs_at(s, p, from) {
    } else {
        lemma_find_from(s, p, from + 1);
    }
}

/// `p` is in `s` exactly when `find` finds it.
pub proof fn lemma_find_contains(s: Seq<char>, p: Seq<char>)
    ensures
        find(s, p) is Some <==> contains(s, p),
{
    lemma_find_from(s, p, 0);
}

/// Does `p` occur in `s` at index `i`?
pub fn matches_at(s: &[char], p: &[char], i: usize) -> (r: bool)
    ensures
        r == occurs_at(s@, p@, i as int),
{
    if i > s.len() || p.len() > s.len() - i {
        return false;
    }
    let mut j: usize = 0;
    while j < p.len()
        invariant
            i + p.len() <= s.len(),
            j <= p.len(),
            s@.subrange(i as int, i + j) == p@.take(j as int),
        decreases p.len() - j,
    {
        if s[i + j] != p[j] {
            assert(s@.subrange(i as int, i + p.len())[j as int] != p@[j as int]);
            return false;
        }
        assert(s@.subrange(i as int, i + j + 1) == s@.subrange(i as int, i + j).push(
            s@[i + j],
        ));
        assert(p@.take(j + 1) == p@.take(j as int).push(p@[j as int]));
        j += 1;
    }
    assert(p@.take(p.len() as int) == p@);
    true
}

/// The first occurrence of `p` in `s` at or after `from`.
pub fn find_chars_from(s: &[char], p: &[char], from: usize) -> (r: Option<usize>)
    ensures
        r matches Some(k) ==> find_from(s@, p@, from as int) == Some(k as int),
        r is None ==> find_from(s@, p@, from as int) is None,
{
    if from > s.len() || p.len() > s.len() - from {
        return None;
    }
    let mut i: usize = from;
    while i <= s.len() - p.len()
        invariant
            p.len() <= s.len(),
            from <= i <= s.len() - p.len(),
            find_from(s@, p@, from as int) == find_from(s@, p@, i as int),
        decreases s.len() - i,
    {
        if matches_at(s, p, i) {
            return Some(i);
        }
        if i == s.len() - p.len() {
            assert(find_from(s@, p@, i + 1) is None);
            return None;
        }
        i += 1;
    }
    None
}

/// Does `p` occur anywhere in `s`?
pub fn contains_chars(s: &[char], p: &[char]) -> (r: bool)
    ensures
        r == contains(s@, p@),
{
    proof {
        lemma_find_contains(s@, p@);
    }
    find_chars_from(s, p, 0).is_some()
}

/// Does `s` begin with `p`?
pub open spec fn starts_with(s: Seq<char>, p: Seq<char>) -> bool {
    p.len() <= s.len() && s.take(p.len() as int) == p
}

/// Does `s` begin with `p`?
pub fn starts_with_chars(s: &[char], p: &[char]) -> (r: bool)
    ensures
        r == starts_with(s@, p@),
{
    let r = matches_at(s, p, 0);
    assert(s@.subrange(0, p@.len() as int) == s@.take(p@.len() as int));
    r
}

// ---------------------------------------------------------------------------
// Replacement
// ---------------------------------------------------------------------------

/// `s` with every non-overlapping occurrence of `p`, taken from left to right,
/// replaced by `r` (what `str::replace` computes). An empty `p` matches at
/// every character boundary.
pub open spec fn replace_all(s: Seq<char>, p: Seq<char>, r: Seq<char>) -> Seq<char>
    decreases s.len(),
{
    if p.len() == 0 {
        if s.len() == 0 {
            r
        } else {
            r + seq![s[0]] + replace_all(s.drop_first(), p, r)
        }
    } else if occurs_at(s, p, 0) {
        r + replace_all(s.skip(p.len() as int), p, r)
    } else if s.len() == 0 {
        s
    } else {
        seq![s[0]] + replace_all(s.drop_first(), p, r)
    }
}

/// `s` with every occurrence of `p` replaced by `r`, as `str::replace` does.
pub fn replace_chars(s: &[char], p: &[char], r: &[char]) -> (out: Vec<char>)
    ensures
        out@ == replace_all(s@, p@, r@),
{
    let mut acc: Vec<char> = Vec::new();
    let mut i: usize = 0;
    assert(s@.skip(0) == s@);
    loop
        invariant
            i <= s.len(),
            acc@ + replace_all(s@.skip(i as int), p@, r@) == replace_all(s@, p@, r@),
        decreases s.len() - i,
    {
        let ghost rest = s@.skip(i as int);
        if p.len() == 0 {
            if i == s.len() {
                append_chars(&mut acc, r);
                assert(rest.len() == 0);
                return acc;
            }
            assert(rest.drop_first() == s@.skip(i + 1));
            assert(rest[0] == s@[i as int]);
            append_chars(&mut acc, r);
            acc.push(s[i]);
            assert(acc@ + replace_all(s@.skip(i + 1), p@, r@) == (acc@.drop_last() + seq![
                s@[i as int],
            ]) + replace_all(s@.skip(i + 1), p@, r@));
            i += 1;
        } else if matches_at(s, p, i) {
            assert(rest.subrange(0, p@.len() as int) == s@.subrange(i as int, i + p@.len()));
            assert(rest.skip(p@.len() as int) == s@.skip(i + p@.len()));
            append_chars(&mut acc, r);
            i += p.len();
        } else {
            assert(rest.len() >= p@.len() ==> rest.subrange(0, p@.len() as int) == s@.subrange(
                i as int,
                i + p@.len(),
            ));
            if i == s.len() {
                assert(rest.len() == 0);
                assert(acc@ + rest == acc@);
                return acc;
            }
            assert(rest.drop_first() == s@.skip(i + 1));
            assert(rest[0] == s@[i as int]);
            acc.push(s[i]);
            assert(acc@ + replace_all(s@.skip(i + 1), p@, r@) == (acc@.drop_last() + seq![
                s@[i as int],
            ]) + replace_all(s@.skip(i + 1), p@, r@));
            i += 1;
        }
    }
}

/// `s` with every occurrence of `p` replaced by `r`, as `str::replace` does.
pub fn replace_str(s: &str, p: &str, r: &str) -> (out: String)
    ensures
        out@ == replace_all(s@, p@, r@),
{
    let sc = chars_of(s);
    let pc = chars_of(p);
    let rc = chars_of(r);
    let out = replace_chars(&sc, &pc, &rc);
    string_of(&out)
}


/// Replacing a pattern by itself leaves the text unchanged.
pub proof fn lemma_replace_by_itself(s: Seq<char>, p: Seq<char>)
    ensures
        replace_all(s, p, p) == s,
    decreases s.len(),
{
    if p.len() == 0 {
        if s.len() > 0 {
            lemma_replace_by_itself(s.drop_first(), p);
            assert(s == seq![s[0]] + s.drop_first());
        }
    } else if occurs_at(s, p, 0) {
        lemma_replace_by_itself(s.skip(p.len() as int), p);
        assert(s == s.subrange(0, p.len() as int) + s.skip(p.len() as int));
    } else if s.len() > 0 {
        lemma_replace_by_itself(s.drop_first(), p);
        assert(s == seq![s[0]] + s.drop_first());
    }
}

/// Where a non-empty pattern does not occur, replacing it changes nothing.
pub proof fn lemma_replace_absent(s: Seq<char>, p: Seq<char>, r: Seq<char>)
    requires
        p.len() > 0,
        !contains(s, p),
    ensures
        replace_all(s, p, r) == s,
    decreases s.len(),
{
    assert(!occurs_at(s, p, 0));
    if s.len() > 0 {
        let t = s.drop_first();
        assert forall|i: int| !occurs_at(t, p, i) by {
            if occurs_at(t, p, i) {
                assert(s.subrange(i + 1, i + 1 + p.len()) == t.subrange(i, i + p.len()));
                assert(occurs_at(s, p, i + 1));
            }
        }
        lemma_replace_absent(t, p, r);
        assert(s == seq![s[0]] + t);
    }
}

/// The characters of `x` and `y` agree as far as both go: one of them
/// starts the other.
pub open spec fn prefix_compatible(x: Seq<char>, y: Seq<char>) -> bool {
    forall|i: int| 0 <= i < x.len() && i < y.len() ==> x[i] == y[i]
}

/// Putting `r` in place of some text never makes `p` appear across its
/// edges: no tail of `r` starts like `p` (so `r` holds no `p` either), and
/// `r` does not start like any part of `p` after its first character.
pub open spec fn seamless(r: Seq<char>, p: Seq<char>) -> bool {
    &&& forall|o: int| 0 <= o < r.len() ==> !prefix_compatible(#[trigger] r.skip(o), p)
    &&& forall|m: int| 1 <= m < p.len() ==> !prefix_compatible(r, #[trigger] p.skip(m))
}

/// `r` is seamless for `p` where every place of `r` that starts with `p`'s
/// first character parts from `p` at index `i1`, and every place of `p`
/// (after its first character) that starts with `r`'s first character parts
/// from `r` at index `i2`.
pub proof fn lemma_seamless_by(r: Seq<char>, p: Seq<char>, i1: int, i2: int)
    requires
        0 <= i1 < p.len(),
        0 <= i2 < r.len(),
        forall|o: int| 0 <= o < r.len() && #[trigger] r[o] == p[0] ==> o + i1 < r.len() && r[o + i1] != p[i1],
        forall|m: int| 1 <= m < p.len() && #[trigger] p[m] == r[0] ==> m + i2 < p.len() && r[i2] != p[m + i2],
    ensures
        seamless(r, p),
{
    assert forall|o: int| 0 <= o < r.len() implies !prefix_compatible(#[trigger] r.skip(o), p) by {
        if r[o] == p[0] {
            assert(r.skip(o)[i1] == r[o + i1]);
        } else {
            assert(r.skip(o)[0] == r[o]);
        }
    }
    assert forall|m: int| 1 <= m < p.len() implies !prefix_compatible(r, #[trigger] p.skip(m)) by {
        if p[m] == r[0] {
            assert(p.skip(m)[i2] == p[m + i2]);
        } else {
            assert(p.skip(m)[0] == p[m]);
        }
    }
}

/// Where `q` does not occur before `n`, replacing copies the first `n`
/// characters as they are.
proof fn lemma_replace_copies_prefix(t: Seq<char>, q: Seq<char>, r: Seq<char>, n: int)
    requires
        q.len() > 0,
        0 <= n <= t.len(),
        forall|k: int| 0 <= k < n ==> !occurs_at(t, q, k),
    ensures
        replace_all(t, q, r) == t.take(n) + replace_all(t.skip(n), q, r),
    decreases n,
{
    if n == 0 {
        assert(t.skip(0) == t);
        assert(t.take(0) + replace_all(t, q, r) == replace_all(t, q, r));
    } else {
        let u = t.drop_first();
        assert(!occurs_at(t, q, 0));
        assert forall|k: int| 0 <= k < n - 1 implies !occurs_at(u, q, k) by {
            if occurs_at(u, q, k) {
                assert(t.subrange(k + 1, k + 1 + q.len()) == u.subrange(k, k + q.len()));
                assert(occurs_at(t, q, k + 1));
            }
        }
        lemma_replace_copies_prefix(u, q, r, n - 1);
        assert(u.skip(n - 1) == t.skip(n));
        assert(t.take(n) == seq![t[0]] + u.take(n - 1));
        assert(replace_all(t, q, r) == seq![t[0]] + replace_all(u, q, r));
        assert(seq![t[0]] + (u.take(n - 1) + replace_all(t.skip(n), q, r)) == (seq![t[0]]
            + u.take(n - 1)) + replace_all(t.skip(n), q, r));
    }
}

/// Occurrences of `p` in `s.skip(a)` are occurrences in `s`, shifted by `a`.
proof fn lemma_occurs_shift(s: Seq<char>, p: Seq<char>, a: int, j: int)
    requires
        0 <= a <= s.len(),
    ensures
        occurs_at(s.skip(a), p, j) ==> occurs_at(s, p, j + a),
        j >= 0 ==> (occurs_at(s, p, j + a) ==> occurs_at(s.skip(a), p, j)),
{
    if 0 <= j && j + p.len() <= s.len() - a {
        assert(s.subrange(j + a, j + a + p.len()) == s.skip(a).subrange(j, j + p.len()));
    }
}

/// A replacement that `p` does not straddle leaves no `p` at the start of
/// the result where the text does not start with the replaced pattern.
proof fn lemma_replace_head(s: Seq<char>, q: Seq<char>, r: Seq<char>, p: Seq<char>)
    requires
        q.len() > 0,
        p.len() > 0,
        seamless(r, p),
        s.len() > 0,
        !occurs_at(s, q, 0),
        !occurs_at(s, p, 0),
    ensures
        !occurs_at(replace_all(s, q, r), p, 0),
{
    let t = s.drop_first();
    let f = replace_all(s, q, r);
    assert(f == seq![s[0]] + replace_all(t, q, r));
    lemma_find_from(t, q, 0);
    let n: int = if p.len() - 1 < t.len() {
        p.len() - 1
    } else {
        t.len() as int
    };
    if find_from(t, q, 0) is Some && find_from(t, q, 0)->0 < n {
        let k = find_from(t, q, 0)->0;
        lemma_replace_copies_prefix(t, q, r, k);
        let v = t.skip(k);
        lemma_occurs_shift(t, q, k, 0);
        assert(occurs_at(v, q, 0));
        assert(replace_all(v, q, r) == r + replace_all(v.skip(q.len() as int), q, r));
        let m = k + 1;
        assert(f == (seq![s[0]] + t.take(k)) + (r + replace_all(v.skip(q.len() as int), q, r)));
        if occurs_at(f, p, 0) {
            assert forall|i: int| 0 <= i < r.len() && i < p.skip(m).len() implies r[i] == p.skip(
                m,
            )[i] by {
                assert(f[m + i] == r[i]);
                assert(f[m + i] == f.subrange(0, p.len() as int)[m + i]);
            }
            assert(prefix_compatible(r, p.skip(m)));
        }
    } else {
        lemma_replace_copies_prefix(t, q, r, n);
        if n == p.len() - 1 {
            if occurs_at(f, p, 0) {
                assert(f == seq![s[0]] + (t.take(n) + replace_all(t.skip(n), q, r)));
                assert forall|i: int| 0 <= i < p.len() implies s[i] == p[i] by {
                    assert(f[i] == f.subrange(0, p.len() as int)[i]);
                    if i > 0 {
                        assert(s[i] == t[i - 1]);
                    }
                }
                assert(s.subrange(0, p.len() as int) == p);
            }
        } else {
            assert(t.skip(n).len() == 0);
            assert(replace_all(t.skip(n), q, r) == t.skip(n));
            assert(f.len() == s.len());
        }
    }
}

/// Replacing `q` by a text that `p` cannot straddle leaves no `p` in the
/// result, where every `p` in the text is a `q` (as when `p` is `q` itself,
/// or when the text holds no `p`): after `str::replace`, nothing of the
/// pattern is left.
pub proof fn lemma_replace_leaves_none(s: Seq<char>, q: Seq<char>, r: Seq<char>, p: Seq<char>)
    requires
        q.len() > 0,
        p.len() > 0,
        seamless(r, p),
        forall|j: int| occurs_at(s, p, j) ==> occurs_at(s, q, j),
    ensures
        !contains(replace_all(s, q, r), p),
    decreases s.len(),
{
    let f = replace_all(s, q, r);
    if occurs_at(s, q, 0) {
        let s2 = s.skip(q.len() as int);
        assert forall|j: int| occurs_at(s2, p, j) implies occurs_at(s2, q, j) by {
            lemma_occurs_shift(s, p, q.len() as int, j);
            lemma_occurs_shift(s, q, q.len() as int, j);
        }
        lemma_replace_leaves_none(s2, q, r, p);
        let g = replace_all(s2, q, r);
        assert(f == r + g);
        assert forall|j: int| !occurs_at(f, p, j) by {
            if occurs_at(f, p, j) {
                if j < r.len() {
                    assert forall|i: int| 0 <= i < r.skip(j).len() && i < p.len() implies r.skip(
                        j,
                    )[i] == p[i] by {
                        assert(f[j + i] == f.subrange(j, j + p.len())[i]);
                    }
                    assert(prefix_compatible(r.skip(j), p));
                } else {
                    assert(f.subrange(j, j + p.len()) == g.subrange(
                        j - r.len(),
                        j - r.len() + p.len(),
                    ));
                    assert(occurs_at(g, p, j - r.len()));
                }
            }
        }
    } else if s.len() == 0 {
        assert(f == s);
    } else {
        let t = s.drop_first();
        assert(t == s.skip(1));
        assert forall|j: int| occurs_at(t, p, j) implies occurs_at(t, q, j) by {
            lemma_occurs_shift(s, p, 1, j);
            lemma_occurs_shift(s, q, 1, j);
        }
        lemma_replace_leaves_none(t, q, r, p);
        let g = replace_all(t, q, r);
        assert(f == seq![s[0]] + g);
        lemma_replace_head(s, q, r, p);
        assert forall|j: int| !occurs_at(f, p, j) by {
            if occurs_at(f, p, j) && j > 0 {
                assert(f.subrange(j, j + p.len()) == g.subrange(j - 1, j - 1 + p.len()));
                assert(occurs_at(g, p, j - 1));
            }
        }
    }
}

// ---------------------------------------------------------------------------
// Whitespace and trimming
// ---------------------------------------------------------------------------

/// The Unicode `White_Space` characters, which `char::is_whitespace` accepts.
pub open spec fn is_whitespace(c: char) -> bool {
    ||| ('\u{9}' <= c && c <= '\u{d}')
    ||| c == ' '
    ||| c == '\u{85}'
    ||| c == '\u{a0}'
    ||| c == '\u{1680}'
    ||| ('\u{2000}' <= c && c <= '\u{200a}')
    ||| c == '\u{2028}'
    ||| c == '\u{2029}'
    ||| c == '\u{202f}'
    ||| c == '\u{205f}'
    ||| c == '\u{3000}'
}

/// Is `c` a Unicode whitespace character?
pub fn char_is_whitespace(c: char) -> (r: bool)
    ensures
        r == is_whitespace(c),
{
    ('\u{9}' <= c && c <= '\u{d}') || c == ' ' || c == '\u{85}' || c == '\u{a0}' || c
        == '\u{1680}' || ('\u{2000}' <= c && c <= '\u{200a}') || c == '\u{2028}' || c
        == '\u{2029}' || c == '\u{202f}' || c == '\u{205f}' || c == '\u{3000}'
}

/// `s` without its leading whitespace (`str::trim_start`).
pub open spec fn trim_start(s: Seq<char>) -> Seq<char>
    decreases s.len(),
{
    if s.len() > 0 && is_whitespace(s[0]) {
        trim_start(s.drop_first())
    } else {
        s
    }
}

/// `s` without its trailing whitespace (`str::trim_end`).
pub open spec fn trim_end(s: Seq<char>) -> Seq<char>
    decreases s.len(),
{
    if s.len() > 0 && is_whitespace(s.last()) {
        trim_end(s.drop_last())
    } else {
        s
    }
}

/// `s` without leading and trailing whitespace (`str::trim`).
pub open spec fn trim(s: Seq<char>) -> Seq<char> {
    trim_end(trim_start(s))
}

/// `trim_start` drops a prefix made of whitespace and stops at the first
/// character that is not whitespace.
pub proof fn lemma_trim_start_shape(s: Seq<char>)
    ensures
        ({
            let t = trim_start(s);
            let k = s.len() - t.len();
            &&& 0 <= k <= s.len()
            &&& t == s.skip(k)
            &&& forall|j: int| 0 <= j < k ==> is_whitespace(s[j])
            &&& t.len() > 0 ==> !is_whitespace(t[0])
        }),
    decreases s.len(),
{
    if s.len() > 0 && is_whitespace(s[0]) {
        lemma_trim_start_shape(s.drop_first());
        let t = trim_start(s);
        let k = s.len() - t.len();
        assert(t == s.skip(k));
        assert forall|j: int| 0 <= j < k implies is_whitespace(s[j]) by {
            if j > 0 {
                assert(s[j] == s.drop_first()[j - 1]);
            }
        }
    } else {
        assert(s.skip(0) == s);
    }
}

/// `trim_end` drops a suffix made of whitespace and stops at the last
/// character that is not whitespace.
pub proof fn lemma_trim_end_shape(s: Seq<char>)
    ensures
        ({
            let t = trim_end(s);
            &&& t.len() <= s.len()
            &&& t == s.take(t.len() as int)
            &&& forall|j: int| t.len() <= j < s.len() ==> is_whitespace(s[j])
            &&& t.len() > 0 ==> !is_whitespace(t.last())
        }),
    decreases s.len(),
{
    if s.len() > 0 && is_whitespace(s.last()) {
        lemma_trim_end_shape(s.drop_last());
        let t = trim_end(s);
        assert(t == s.take(t.len() as int));
        assert forall|j: int| t.len() <= j < s.len() implies is_whitespace(s[j]) by {
            if j < s.len() - 1 {
                assert(s[j] == s.drop_last()[j]);
            }
        }
    } else {
        assert(s.take(s.len() as int) == s);
    }
}

/// A text that neither starts nor ends with whitespace is left alone by both
/// trims.
proof fn lemma_trim_fixed(s: Seq<char>)
    requires
        s.len() > 0 ==> !is_whitespace(s[0]) && !is_whitespace(s.last()),
    ensures
        trim_start(s) == s,
        trim_end(s) == s,
{
}

/// Trimming twice gives what trimming once gives.
pub proof fn lemma_trim_idempotent(s: Seq<char>)
    ensures
        trim(trim(s)) == trim(s),
{
    let a = trim_start(s);
    lemma_trim_start_shape(s);
    lemma_trim_end_shape(a);
    let t = trim_end(a);
    if t.len() > 0 {
        assert(t[0] == a[0]);
    }
    lemma_trim_fixed(t);
}

/// `s` without its leading whitespace, as `str::trim_start` gives it.
pub fn trim_start_chars(s: &[char]) -> (r: Vec<char>)
    ensures
        r@ == trim_start(s@),
{
    let mut a: usize = 0;
    assert(s@.skip(0) == s@);
    while a < s.len() && char_is_whitespace(s[a])
        invariant
            a <= s.len(),
            trim_start(s@.skip(a as int)) == trim_start(s@),
        decreases s.len() - a,
    {
        assert(s@.skip(a as int).drop_first() == s@.skip(a + 1));
        a += 1;
    }
    assert(s@.subrange(a as int, s@.len() as int) == s@.skip(a as int));
    slice_chars(s, a, s.len())
}

/// `s` with leading and trailing whitespace removed, as `str::trim` does.
pub fn trim_chars(s: &[char]) -> (r: Vec<char>)
    ensures
        r@ == trim(s@),
{
    let mut a: usize = 0;
    assert(s@.skip(0) == s@);
    while a < s.len() && char_is_whitespace(s[a])
        invariant
            a <= s.len(),
            trim_start(s@.skip(a as int)) == trim_start(s@),
        decreases s.len() - a,
    {
        assert(s@.skip(a as int).drop_first() == s@.skip(a + 1));
        a += 1;
    }
    let ghost start = s@.skip(a as int);
    assert(trim_start(start) == start);
    let mut b: usize = s.len();
    assert(start.take((b - a) as int) == start);
    while b > a && char_is_whitespace(s[b - 1])
        invariant
            a <= b <= s.len(),
            start == s@.skip(a as int),
            trim_end(s@.subrange(a as int, b as int)) == trim_end(start),
        decreases b,
    {
        assert(s@.subrange(a as int, b as int).drop_last() == s@.subrange(a as int, b - 1));
        b -= 1;
    }
    assert(trim_end(s@.subrange(a as int, b as int)) == s@.subrange(a as int, b as int));
    slice_chars(s, a, b)
}

/// `s` with leading and trailing whitespace removed, as `str::trim` does.
pub fn trim_str(s: &str) -> (r: String)
    ensures
        r@ == trim(s@),
{
    let cs = chars_of(s);
    let t = trim_chars(&cs);
    string_of(&t)
}


// ---------------------------------------------------------------------------
// Lines
// ---------------------------------------------------------------------------

/// A line without the carriage return that preceded its line feed.
pub open spec fn strip_cr(l: Seq<char>) -> Seq<char> {
    if l.len() > 0 && l.last() == '\r' {
        l.drop_last()
    } else {
        l
    }
}

/// The lines of `s` that start at or after index `start`, split as
/// `BufRead::lines` and `str::lines` split them: at each `'\n'`, with a
/// `'\r'` right before that `'\n'` dropped, and no empty line after a final
/// `'\n'`.
pub open spec fn lines_from(s: Seq<char>, start: int) -> Seq<Seq<char>>
    decreases s.len() - start,
{
    if start < 0 || start >= s.len() {
        seq![]
    } else {
        proof {
            lemma_find_from(s, seq!['\n'], start);
        }
        match find_from(s, seq!['\n'], start) {
            Some(k) => seq![strip_cr(s.subrange(start, k))] + lines_from(s, k + 1),
            None => seq![s.subrange(start, s.len() as int)],
        }
    }
}

/// The lines of `s`.
pub open spec fn lines(s: Seq<char>) -> Seq<Seq<char>> {
    lines_from(s, 0)
}

/// The views of a vector of character vectors.
pub open spec fn views(v: Seq<Vec<char>>) -> Seq<Seq<char>> {
    v.map_values(|x: Vec<char>| x@)
}

/// The views of a vector of strings.
pub open spec fn string_views(v: Seq<String>) -> Seq<Seq<char>> {
    v.map_values(|x: String| x@)
}

/// `l` with one carriage return removed from its end, if it has one there.
pub fn strip_cr_chars(l: Vec<char>) -> (r: Vec<char>)
    ensures
        r@ == strip_cr(l@),
{
    let mut l = l;
    if l.len() > 0 && l[l.len() - 1] == '\r' {
        l.pop();
    }
    l
}

/// The lines of `s`, as `str::lines` gives them.
pub fn split_lines(s: &[char]) -> (r: Vec<Vec<char>>)
    ensures
        views(r@) == lines(s@),
{
    let nl: Vec<char> = vec!['\n'];
    assert(nl@ == seq!['\n']);
    let mut out: Vec<Vec<char>> = Vec::new();
    let mut start: usize = 0;
    assert(views(out@) + lines_from(s@, 0) == lines_from(s@, 0));
    while start < s.len()
        invariant
            start <= s.len(),
            nl@ == seq!['\n'],
            views(out@) + lines_from(s@, start as int) == lines(s@),
        decreases s.len() - start,
    {
        proof {
            lemma_find_from(s@, seq!['\n'], start as int);
        }
        let ghost before = views(out@);
        match find_chars_from(s, &nl, start) {
            Some(k) => {
                let line = strip_cr_chars(slice_chars(s, start, k));
                out.push(line);
                assert(views(out@) == before.push(line@));
                assert(before + lines_from(s@, start as int) == views(out@) + lines_from(
                    s@,
                    k + 1,
                ));
                start = k + 1;
            },
            None => {
                let line = slice_chars(s, start, s.len());
                out.push(line);
                assert(views(out@) == before.push(line@));
                assert(before + lines_from(s@, start as int) == views(out@) + lines_from(
                    s@,
                    s.len() as int,
                ));
                start = s.len();
            },
        }
    }
    out
}

/// Each line followed by a line feed, all in order: the text that writing
/// the lines one per `writeln!` produces.
pub open spec fn join_lines(ls: Seq<Seq<char>>) -> Seq<char>
    decreases ls.len(),
{
    if ls.len() == 0 {
        seq![]
    } else {
        ls[0] + seq!['\n'] + join_lines(ls.drop_first())
    }
}


/// The character vectors of a vector of strings.
pub fn chars_of_all(v: &Vec<String>) -> (r: Vec<Vec<char>>)
    ensures
        views(r@) == string_views(v@),
{
    let mut out: Vec<Vec<char>> = Vec::new();
    let mut i: usize = 0;
    while i < v.len()
        invariant
            i <= v.len(),
            views(out@) == string_views(v@).take(i as int),
        decreases v.len() - i,
    {
        let c = chars_of(v[i].as_str());
        let ghost before = views(out@);
        out.push(c);
        assert(views(out@) == before.push(c@));
        assert(string_views(v@).take(i + 1) == string_views(v@).take(i as int).push(v@[i as int]@));
        i += 1;
    }
    assert(string_views(v@).take(v.len() as int) == string_views(v@));
    out
}

/// The strings holding each of the given character vectors.
pub fn strings_of_all(v: &Vec<Vec<char>>) -> (r: Vec<String>)
    ensures
        string_views(r@) == views(v@),
{
    let mut out: Vec<String> = Vec::new();
    let mut i: usize = 0;
    while i < v.len()
        invariant
            i <= v.len(),
            string_views(out@) == views(v@).take(i as int),
        decreases v.len() - i,
    {
        let c = string_of(&v[i]);
        let ghost before = string_views(out@);
        out.push(c);
        assert(string_views(out@) == before.push(c@));
        assert(views(v@).take(i + 1) == views(v@).take(i as int).push(v@[i as int]@));
        i += 1;
    }
    assert(views(v@).take(v.len() as int) == views(v@));
    out
}


// ---------------------------------------------------------------------------
// Splitting and joining
// ---------------------------------------------------------------------------

/// The pieces of `s` between occurrences of `c` (`str::split` on a `char`):
/// there is always at least one piece, and pieces may be empty.
pub open spec fn split_on(s: Seq<char>, c: char) -> Seq<Seq<char>>
    decreases s.len(),
{
    proof {
        lemma_find_from(s, seq![c], 0);
    }
    match find_from(s, seq![c], 0) {
        Some(k) => seq![s.take(k)] + split_on(s.skip(k + 1), c),
        None => seq![s],
    }
}

/// The pieces joined with `sep` between consecutive ones (`[..].join(sep)`).
pub open spec fn join_with(pieces: Seq<Seq<char>>, sep: Seq<char>) -> Seq<char>
    decreases pieces.len(),
{
    if pieces.len() == 0 {
        seq![]
    } else if pieces.len() == 1 {
        pieces[0]
    } else {
        pieces[0] + sep + join_with(pieces.drop_first(), sep)
    }
}

/// The number of copies of `c` in `s`.
pub open spec fn count_char(s: Seq<char>, c: char) -> nat
    decreases s.len(),
{
    if s.len() == 0 {
        0
    } else {
        (if s[0] == c {
            1nat
        } else {
            0nat
        }) + count_char(s.drop_first(), c)
    }
}

/// Counting in two texts put end to end adds up.
pub proof fn lemma_count_concat(a: Seq<char>, b: Seq<char>, c: char)
    ensures
        count_char(a + b, c) == count_char(a, c) + count_char(b, c),
    decreases a.len(),
{
    if a.len() == 0 {
        assert(a + b == b);
    } else {
        assert((a + b).drop_first() == a.drop_first() + b);
        assert((a + b)[0] == a[0]);
        lemma_count_concat(a.drop_first(), b, c);
    }
}

/// A text holds no copy of `c` exactly when its count of `c` is zero.
pub proof fn lemma_count_zero(s: Seq<char>, c: char)
    ensures
        count_char(s, c) == 0 <==> forall|j: int| 0 <= j < s.len() ==> s[j] != c,
    decreases s.len(),
{
    if s.len() > 0 {
        lemma_count_zero(s.drop_first(), c);
        if count_char(s, c) == 0 {
            assert forall|j: int| 0 <= j < s.len() implies s[j] != c by {
                if j > 0 {
                    assert(s[j] == s.drop_first()[j - 1]);
                }
            }
        } else if s[0] != c {
            let j = choose|j: int| 0 <= j < s.drop_first().len() && s.drop_first()[j] == c;
            assert(s[j + 1] == c);
        }
    }
}

/// `c` occurs at `j` exactly when the character there is `c`.
proof fn lemma_occurs_char(s: Seq<char>, c: char, j: int)
    requires
        0 <= j < s.len(),
    ensures
        occurs_at(s, seq![c], j) <==> s[j] == c,
{
    if s[j] == c {
        assert(s.subrange(j, j + 1) == seq![c]);
    }
    if occurs_at(s, seq![c], j) {
        assert(s[j] == s.subrange(j, j + 1)[0]);
    }
}

/// Where `c` first occurs at `k`, the text is what comes before it, `c`,
/// and what comes after it, and nothing before it is `c`.
pub proof fn lemma_split_first(s: Seq<char>, c: char)
    ensures
        find_from(s, seq![c], 0) matches Some(k) ==> {
            &&& 0 <= k < s.len()
            &&& s == s.take(k) + (seq![c] + s.skip(k + 1))
            &&& count_char(s.take(k), c) == 0
            &&& split_on(s, c) == seq![s.take(k)] + split_on(s.skip(k + 1), c)
        },
        find_from(s, seq![c], 0) is None ==> count_char(s, c) == 0 && split_on(s, c) == seq![s],
{
    lemma_find_from(s, seq![c], 0);
    match find_from(s, seq![c], 0) {
        Some(k) => {
            lemma_occurs_char(s, c, k);
            assert(s == s.take(k) + (seq![c] + s.skip(k + 1)));
            assert forall|j: int| 0 <= j < s.take(k).len() implies s.take(k)[j] != c by {
                lemma_occurs_char(s, c, j);
            }
            lemma_count_zero(s.take(k), c);
        },
        None => {
            assert forall|j: int| 0 <= j < s.len() implies s[j] != c by {
                lemma_occurs_char(s, c, j);
            }
            lemma_count_zero(s, c);
        },
    }
}

/// A text splits at `c` into one piece more than it has copies of `c`.
pub proof fn lemma_split_len(s: Seq<char>, c: char)
    ensures
        split_on(s, c).len() == count_char(s, c) + 1,
    decreases s.len(),
{
    lemma_split_first(s, c);
    if let Some(k) = find_from(s, seq![c], 0) {
        let rest = s.skip(k + 1);
        lemma_count_concat(s.take(k), seq![c] + rest, c);
        assert((seq![c] + rest).drop_first() == rest);
        assert((seq![c] + rest)[0] == c);
        lemma_split_len(rest, c);
    }
}

/// Trimming removes only whitespace, so it keeps every other character.
pub proof fn lemma_trim_count(s: Seq<char>, c: char)
    requires
        !is_whitespace(c),
    ensures
        count_char(trim(s), c) == count_char(s, c),
{
    lemma_trim_start_shape(s);
    let u = trim_start(s);
    let a = s.len() - u.len();
    assert(s == s.take(a) + u);
    lemma_count_concat(s.take(a), u, c);
    assert forall|j: int| 0 <= j < s.take(a).len() implies s.take(a)[j] != c by {
        assert(is_whitespace(s[j]));
    }
    lemma_count_zero(s.take(a), c);
    lemma_trim_end_shape(u);
    let t = trim_end(u);
    assert(u == t + u.skip(t.len() as int));
    lemma_count_concat(t, u.skip(t.len() as int), c);
    assert forall|j: int| 0 <= j < u.skip(t.len() as int).len() implies u.skip(
        t.len() as int,
    )[j] != c by {
        assert(is_whitespace(u[t.len() + j]));
    }
    lemma_count_zero(u.skip(t.len() as int), c);
}

/// The pieces of `s` between occurrences of `c`, as `str::split` gives them.
pub fn split_chars_on(s: &[char], c: char) -> (r: Vec<Vec<char>>)
    ensures
        views(r@) == split_on(s@, c),
{
    let sep: Vec<char> = vec![c];
    assert(sep@ == seq![c]);
    let mut out: Vec<Vec<char>> = Vec::new();
    let mut start: usize = 0;
    assert(s@.skip(0) == s@);
    loop
        invariant
            start <= s.len(),
            sep@ == seq![c],
            views(out@) + split_on(s@.skip(start as int), c) == split_on(s@, c),
        decreases s.len() - start,
    {
        let ghost rest = s@.skip(start as int);
        proof {
            lemma_find_from(s@, seq![c], start as int);
            lemma_find_from(rest, seq![c], 0);
            lemma_find_shift(s@, seq![c], start as int);
        }
        let ghost before = views(out@);
        match find_chars_from(s, &sep, start) {
            Some(k) => {
                let piece = slice_chars(s, start, k);
                out.push(piece);
                assert(views(out@) == before.push(piece@));
                assert(rest.take(k - start) == piece@);
                assert(rest.skip(k - start + 1) == s@.skip(k + 1));
                start = k + 1;
            },
            None => {
                let piece = slice_chars(s, start, s.len());
                out.push(piece);
                assert(views(out@) == before.push(piece@));
                assert(piece@ == rest);
                return out;
            },
        }
    }
}

/// Searching in a suffix finds what searching the whole text from the
/// suffix's start finds, shifted.
pub proof fn lemma_find_shift(s: Seq<char>, p: Seq<char>, a: int)
    requires
        0 <= a <= s.len(),
    ensures
        find_from(s.skip(a), p, 0) == (match find_from(s, p, a) {
            Some(k) => Some(k - a),
            None => None::<int>,
        }),
{
    lemma_find_shift_from(s, p, a, 0);
}

pub proof fn lemma_find_shift_from(s: Seq<char>, p: Seq<char>, a: int, j: int)
    requires
        0 <= a <= s.len(),
        0 <= j,
    ensures
        find_from(s.skip(a), p, j) == (match find_from(s, p, a + j) {
            Some(k) => Some(k - a),
            None => None::<int>,
        }),
    decreases s.len() + 1 - (a + j),
{
    let t = s.skip(a);
    if j + p.len() > t.len() {
    } else {
        assert(t.subrange(j, j + p.len()) == s.subrange(a + j, a + j + p.len()));
        if occurs_at(t, p, j) {
        } else {
            lemma_find_shift_from(s, p, a, j + 1);
        }
    }
}

/// The pieces joined with `sep` between consecutive ones.
pub fn join_chars(pieces: &Vec<Vec<char>>, sep: &[char]) -> (r: Vec<char>)
    ensures
        r@ == join_with(views(pieces@), sep@),
{
    let ghost all = views(pieces@);
    if pieces.len() == 0 {
        return Vec::new();
    }
    let mut out: Vec<char> = Vec::new();
    let mut i: usize = pieces.len();
    // Build from the back: out holds the join of the pieces from i on.
    append_chars(&mut out, &pieces[i - 1]);
    i = i - 1;
    assert(all.skip(i as int) == seq![all[i as int]]);
    while i > 0
        invariant
            0 <= i < pieces.len(),
            all == views(pieces@),
            out@ == join_with(all.skip(i as int), sep@),
        decreases i,
    {
        let mut front = slice_chars(&pieces[i - 1], 0, pieces[i - 1].len());
        assert(front@ == all[i - 1]);
        append_chars(&mut front, sep);
        append_chars(&mut front, &out);
        let ghost tail = all.skip(i - 1);
        assert(tail.drop_first() == all.skip(i as int));
        assert(tail[0] == all[i - 1]);
        out = front;
        i = i - 1;
    }
    assert(all.skip(0) == all);
    out
}

/// The maximal run of characters that are not whitespace at the start of `s`.
pub open spec fn word_len(s: Seq<char>) -> nat
    decreases s.len(),
{
    if s.len() == 0 || is_whitespace(s[0]) {
        0
    } else {
        1 + word_len(s.drop_first())
    }
}

/// The whitespace-separated words of `s` (`str::split_whitespace`).
pub open spec fn words(s: Seq<char>) -> Seq<Seq<char>>
    decreases s.len(),
{
    let t = trim_start(s);
    proof {
        lemma_trim_start_shape(s);
        lemma_word_len_bound(t);
    }
    if t.len() == 0 {
        seq![]
    } else {
        seq![t.take(word_len(t) as int)] + words(t.skip(word_len(t) as int))
    }
}

/// A word is part of the text, and is not empty where the text starts with
/// something other than whitespace.
pub proof fn lemma_word_len_bound(s: Seq<char>)
    ensures
        word_len(s) <= s.len(),
        s.len() > 0 && !is_whitespace(s[0]) ==> word_len(s) >= 1,
        forall|j: int| 0 <= j < word_len(s) ==> !is_whitespace(s[j]),
        word_len(s) < s.len() ==> is_whitespace(s[word_len(s) as int]),
    decreases s.len(),
{
    if s.len() > 0 && !is_whitespace(s[0]) {
        lemma_word_len_bound(s.drop_first());
        assert forall|j: int| 0 <= j < word_len(s) implies !is_whitespace(s[j]) by {
            if j > 0 {
                assert(s[j] == s.drop_first()[j - 1]);
            }
        }
    }
}

/// The whitespace-separated words of `s`, as `str::split_whitespace` gives
/// them.
pub fn split_words(s: &[char]) -> (r: Vec<Vec<char>>)
    ensures
        views(r@) == words(s@),
{
    let mut out: Vec<Vec<char>> = Vec::new();
    let mut i: usize = 0;
    assert(s@.skip(0) == s@);
    while i < s.len()
        invariant
            i <= s.len(),
            views(out@) + words(s@.skip(i as int)) == words(s@),
        decreases s.len() - i,
    {
        let ghost rest = s@.skip(i as int);
        let mut a = i;
        assert(s@.skip(a as int) == rest);
        while a < s.len() && char_is_whitespace(s[a])
            invariant
                i <= a <= s.len(),
                trim_start(s@.skip(a as int)) == trim_start(rest),
            decreases s.len() - a,
        {
            assert(s@.skip(a as int).drop_first() == s@.skip(a + 1));
            a += 1;
        }
        let ghost t = s@.skip(a as int);
        assert(trim_start(t) == t);
        if a == s.len() {
            assert(t.len() == 0);
            assert(words(rest) == Seq::<Seq<char>>::empty());
            i = a;
            assert(views(out@) + Seq::<Seq<char>>::empty() == views(out@));
            assert(s@.skip(i as int).len() == 0);
        } else {
            let mut b = a;
            while b < s.len() && !char_is_whitespace(s[b])
                invariant
                    a <= b <= s.len(),
                    word_len(t) == (b - a) + word_len(s@.skip(b as int)),
                decreases s.len() - b,
            {
                assert(s@.skip(b as int).drop_first() == s@.skip(b + 1));
                b += 1;
            }
            assert(word_len(t) == b - a);
            let w = slice_chars(s, a, b);
            assert(w@ == t.take(word_len(t) as int));
            assert(t.skip(word_len(t) as int) == s@.skip(b as int));
            let ghost before = views(out@);
            out.push(w);
            assert(views(out@) == before.push(w@));
            i = b;
        }
    }
    assert(s@.skip(i as int).len() == 0);
    assert(words(s@.skip(i as int)) == Seq::<Seq<char>>::empty());
    out
}


// ---------------------------------------------------------------------------
// Lines and joining
// ---------------------------------------------------------------------------

/// `l` holds no line feed.
pub open spec fn no_newline(l: Seq<char>) -> bool {
    forall|j: int| 0 <= j < l.len() ==> l[j] != '\n'
}

/// `l` ends with a carriage return.
pub open spec fn ends_with_cr(l: Seq<char>) -> bool {
    l.len() > 0 && l.last() == '\r'
}

/// `find_from` finds `k` where `p` occurs at `k` and nowhere between `from`
/// and `k`.
pub proof fn lemma_find_from_at(s: Seq<char>, p: Seq<char>, from: int, k: int)
    requires
        0 <= from <= k,
        occurs_at(s, p, k),
        forall|j: int| from <= j < k ==> !occurs_at(s, p, j),
    ensures
        find_from(s, p, from) == Some(k),
    decreases k - from,
{
    if from < k {
        lemma_find_from_at(s, p, from + 1, k);
    }
}

/// The lines after a prefix are the lines of what follows it.
pub proof fn lemma_lines_from_shift(pre: Seq<char>, b: Seq<char>, j: int)
    requires
        0 <= j,
    ensures
        lines_from(pre + b, pre.len() + j) == lines_from(b, j),
    decreases b.len() - j,
{
    let s = pre + b;
    let a = pre.len() as int;
    let nl = seq!['\n'];
    if j < b.len() {
        assert(s.skip(a) == b);
        lemma_find_shift_from(s, nl, a, j);
        lemma_find_from(b, nl, j);
        match find_from(b, nl, j) {
            Some(k) => {
                assert(s.subrange(a + j, a + k) == b.subrange(j, k));
                lemma_lines_from_shift(pre, b, k + 1);
            },
            None => {
                assert(s.subrange(a + j, s.len() as int) == b.subrange(j, b.len() as int));
            },
        }
    }
}

/// Splitting joined lines gives the lines back, when none of them holds a
/// line feed or ends with a carriage return.
pub proof fn lemma_lines_of_join(ls: Seq<Seq<char>>)
    requires
        forall|i: int| 0 <= i < ls.len() ==> no_newline(#[trigger] ls[i]) && !ends_with_cr(ls[i]),
    ensures
        lines(join_lines(ls)) == ls,
    decreases ls.len(),
{
    if ls.len() > 0 {
        let l0 = ls[0];
        let rest = ls.drop_first();
        assert forall|i: int| 0 <= i < rest.len() implies no_newline(#[trigger] rest[i])
            && !ends_with_cr(rest[i]) by {
            assert(rest[i] == ls[i + 1]);
        }
        lemma_lines_of_join(rest);
        let pre = l0 + seq!['\n'];
        let s = join_lines(ls);
        assert(s == pre + join_lines(rest));
        assert(no_newline(l0) && !ends_with_cr(l0));
        let nl = seq!['\n'];
        assert(s.subrange(l0.len() as int, l0.len() as int + 1) == nl);
        assert forall|j: int| 0 <= j < l0.len() implies !occurs_at(s, nl, j) by {
            assert(s.subrange(j, j + 1)[0] == l0[j]);
        }
        lemma_find_from_at(s, nl, 0, l0.len() as int);
        assert(s.subrange(0, l0.len() as int) == l0);
        lemma_lines_from_shift(pre, join_lines(rest), 0);
        assert(lines_from(s, l0.len() as int + 1) == rest);
        assert(lines(s) == seq![l0] + rest);
        assert(seq![l0] + rest == ls);
    }
}

/// No line of `s` holds a line feed.
pub proof fn lemma_lines_no_newline(s: Seq<char>, start: int)
    requires
        0 <= start,
    ensures
        forall|i: int| 0 <= i < lines_from(s, start).len() ==> no_newline(
            #[trigger] lines_from(s, start)[i],
        ),
    decreases s.len() - start,
{
    let nl = seq!['\n'];
    if start < s.len() {
        lemma_find_from(s, nl, start);
        match find_from(s, nl, start) {
            Some(k) => {
                lemma_lines_no_newline(s, k + 1);
                let l = s.subrange(start, k);
                assert forall|j: int| 0 <= j < l.len() implies l[j] != '\n' by {
                    assert(!occurs_at(s, nl, start + j));
                    assert(l[j] == s[start + j]);
                    if s[start + j] == '\n' {
                        assert(s.subrange(start + j, start + j + 1) =~= nl);
                    }
                }
                let ls = lines_from(s, start);
                assert forall|i: int| 0 <= i < ls.len() implies no_newline(#[trigger] ls[i]) by {
                    if i > 0 {
                        assert(ls[i] == lines_from(s, k + 1)[i - 1]);
                    } else {
                        assert(ls[0] == strip_cr(l));
                    }
                }
            },
            None => {
                let l = s.subrange(start, s.len() as int);
                assert forall|j: int| 0 <= j < l.len() implies l[j] != '\n' by {
                    assert(!occurs_at(s, nl, start + j));
                    assert(l[j] == s[start + j]);
                    if s[start + j] == '\n' {
                        assert(s.subrange(start + j, start + j + 1) =~= nl);
                    }
                }
            },
        }
    }
}

// ---------------------------------------------------------------------------
// Decimal numbers
// ---------------------------------------------------------------------------

/// The decimal digits of `n`, most significant first, without leading zeros
/// (what `to_string` writes for an unsigned integer).
pub open spec fn decimal(n: nat) -> Seq<char>
    decreases n,
{
    if n < 10 {
        seq![(('0' as int) + n) as char]
    } else {
        decimal(n / 10) + seq![(('0' as int) + n % 10) as char]
    }
}

/// The decimal digit of `d`, which is below 10.
fn decimal_digit(d: usize) -> (c: char)
    requires
        d < 10,
    ensures
        c == (('0' as int) + d) as char,
{
    if d == 0 {
        '0'
    } else if d == 1 {
        '1'
    } else if d == 2 {
        '2'
    } else if d == 3 {
        '3'
    } else if d == 4 {
        '4'
    } else if d == 5 {
        '5'
    } else if d == 6 {
        '6'
    } else if d == 7 {
        '7'
    } else if d == 8 {
        '8'
    } else {
        '9'
    }
}

/// The decimal digits of `n`.
pub fn decimal_chars(n: usize) -> (r: Vec<char>)
    ensures
        r@ == decimal(n as nat),
    decreases n,
{
    if n < 10 {
        let mut v: Vec<char> = Vec::new();
        v.push(decimal_digit(n));
        v
    } else {
        let mut v = decimal_chars(n / 10);
        v.push(decimal_digit(n % 10));
        v
    }
}

} // verus!
