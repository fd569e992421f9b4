use vstd::prelude::*;
use vstd::string::{StrSliceExecFns, StringExecFns};

verus! {

/// The characters that carry Unicode's `White_Space` property.
pub open spec fn is_white_space(c: char) -> bool {
    ||| ('\u{9}' <= c && c <= '\u{d}')
    ||| c == ' '
    ||| c == '\u{85}'
    ||| c == '\u{a0}'
    ||| c == '\u{1680}'
    ||| ('\u{2000}' <= c && c <= '\u{200a}')
    ||| c == '\u{2028}'
    ||| c == '\u{2029}'
    ||| c == '\u{202f}'
    ||| c == '\u{205f}'
    ||| c == '\u{3000}'
}

/// Which characters end a token.
#[derive(Clone, Copy, PartialEq, Eq, Debug)]
pub enum Separator {
    /// `/`, as between the segments of a path.
    Slash,
    /// Any white-space character, as between the words of a command line.
    WhiteSpace,
}

pub open spec fn is_separator(sep: Separator, c: char) -> bool {
    match sep {
        Separator::Slash => c == '/',
        Separator::WhiteSpace => is_white_space(c),
    }
}

/// The tokens completed within the first `i` characters of `s`, and the
/// token still open after them.
pub open spec fn tokens_upto(s: Seq<char>, i: int, sep: Separator) -> (Seq<Seq<char>>, Seq<char>)
    decreases i,
{
    if i <= 0 {
        (Seq::empty(), Seq::empty())
    } else {
        let (done, cur) = tokens_upto(s, i - 1, sep);
        if is_separator(sep, s[i - 1]) {
            if cur.len() > 0 {
                (done.push(cur), Seq::empty())
            } else {
                (done, Seq::empty())
            }
        } else {
            (done, cur.push(s[i - 1]))
        }
    }
}

/// The maximal runs of non-separator characters of `s`, in order; empty
/// runs are dropped.
pub open spec fn tokens(s: Seq<char>, sep: Separator) -> Seq<Seq<char>> {
    let (done, cur) = tokens_upto(s, s.len() as int, sep);
    if cur.len() > 0 {
        done.push(cur)
    } else {
        done
    }
}

/// The views of a sequence of strings.
pub open spec fn strs(v: Seq<String>) -> Seq<Seq<char>> {
    v.map_values(|s: String| s@)
}

/// Tokenizing a prefix does not look past it.
pub proof fn lemma_tokens_upto_prefix(s: Seq<char>, t: Seq<char>, i: int, sep: Separator)
    requires
        0 <= i <= s.len(),
    ensures
        tokens_upto(s + t, i, sep) == tokens_upto(s, i, sep),
    decreases i,
{
    if i > 0 {
        lemma_tokens_upto_prefix(s, t, i - 1, sep);
        assert((s + t)[i - 1] == s[i - 1]);
    }
}

/// A run without separators extends the open token.
pub proof fn lemma_tokens_upto_run(s: Seq<char>, x: Seq<char>, j: int, sep: Separator)
    requires
        0 <= j <= x.len(),
        forall|k: int| 0 <= k < x.len() ==> !is_separator(sep, #[trigger] x[k]),
    ensures
        tokens_upto(s + x, s.len() + j, sep) == (
            tokens_upto(s, s.len() as int, sep).0,
            tokens_upto(s, s.len() as int, sep).1 + x.subrange(0, j),
        ),
    decreases j,
{
    if j == 0 {
        lemma_tokens_upto_prefix(s, x, s.len() as int, sep);
        assert(tokens_upto(s, s.len() as int, sep).1 + x.subrange(0, 0) =~= tokens_upto(
            s,
            s.len() as int,
            sep,
        ).1);
    } else {
        lemma_tokens_upto_run(s, x, j - 1, sep);
        assert((s + x)[s.len() + j - 1] == x[j - 1]);
        assert(tokens_upto(s, s.len() as int, sep).1 + x.subrange(0, j) =~= (tokens_upto(
            s,
            s.len() as int,
            sep,
        ).1 + x.subrange(0, j - 1)).push(x[j - 1]));
    }
}

/// A separator and a non-empty run without separators add one token.
pub proof fn lemma_tokens_append(s: Seq<char>, c: char, x: Seq<char>, sep: Separator)
    requires
        is_separator(sep, c),
        x.len() > 0,
        forall|k: int| 0 <= k < x.len() ==> !is_separator(sep, #[trigger] x[k]),
    ensures
        tokens(s + seq![c] + x, sep) == tokens(s, sep).push(x),
{
    let s2 = s + seq![c];
    let u = s2 + x;
    lemma_tokens_upto_prefix(s, seq![c], s.len() as int, sep);
    assert(s2[s.len() as int] == c);
    lemma_tokens_upto_run(s2, x, x.len() as int, sep);
    assert(x.subrange(0, x.len() as int) =~= x);
    assert(Seq::<char>::empty() + x =~= x);
}

/// Every token is non-empty and holds no separator.
pub proof fn lemma_tokens_upto_valid(s: Seq<char>, i: int, sep: Separator)
    requires
        0 <= i <= s.len(),
    ensures
        forall|k: int|
            0 <= k < tokens_upto(s, i, sep).0.len() ==> #[trigger] tokens_upto(s, i, sep).0[k].len()
                > 0,
        forall|k: int, m: int|
            0 <= k < tokens_upto(s, i, sep).0.len() && 0 <= m < tokens_upto(s, i, sep).0[k].len()
                ==> !is_separator(sep, #[trigger] tokens_upto(s, i, sep).0[k][m]),
        forall|m: int|
            0 <= m < tokens_upto(s, i, sep).1.len() ==> !is_separator(
                sep,
                #[trigger] tokens_upto(s, i, sep).1[m],
            ),
    decreases i,
{
    if i > 0 {
        lemma_tokens_upto_valid(s, i - 1, sep);
        let (d, c) = tokens_upto(s, i - 1, sep);
        if is_separator(sep, s[i - 1]) && c.len() > 0 {
            let d2 = d.push(c);
            assert forall|k: int| 0 <= k < d2.len() implies #[trigger] d2[k].len() > 0 by {
                if k < d.len() {
                    assert(d2[k] == d[k]);
                }
            }
            assert forall|k: int, m: int|
                0 <= k < d2.len() && 0 <= m < d2[k].len() implies !is_separator(
                sep,
                #[trigger] d2[k][m],
            ) by {
                if k < d.len() {
                    assert(d2[k] == d[k]);
                }
            }
        }
    }
}

/// The tokens of `s` are non-empty and hold no separator.
pub proof fn lemma_tokens_valid(s: Seq<char>, sep: Separator)
    ensures
        forall|k: int| 0 <= k < tokens(s, sep).len() ==> #[trigger] tokens(s, sep)[k].len() > 0,
        forall|k: int, m: int|
            0 <= k < tokens(s, sep).len() && 0 <= m < tokens(s, sep)[k].len() ==> !is_separator(
                sep,
                #[trigger] tokens(s, sep)[k][m],
            ),
{
    lemma_tokens_upto_valid(s, s.len() as int, sep);
}

/// Whether `c` carries Unicode's `White_Space` property, as
/// `char::is_whitespace` decides it.
fn char_is_whitespace(c: char) -> (r: bool)
    ensures
        r == is_white_space(c),
{
    ('\u{9}' <= c && c <= '\u{d}') || c == ' ' || c == '\u{85}' || c == '\u{a0}' || c == '\u{1680}'
        || ('\u{2000}' <= c && c <= '\u{200a}') || c == '\u{2028}' || c == '\u{2029}' || c
        == '\u{202f}' || c == '\u{205f}' || c == '\u{3000}'
}

/// Relies on `String::push`: appends one character.
#[verifier::external_body]
pub(crate) fn push_char(s: &mut String, c: char)
    ensures
        final(s)@ == old(s)@.push(c),
{
    s.push(c)
}

/// An owned copy of `s`.
pub(crate) fn literal(s: &str) -> (r: String)
    ensures
        r@ == s@,
{
    String::from_str(s)
}

pub fn is_separator_char(sep: Separator, c: char) -> (r: bool)
    ensures
        r == is_separator(sep, c),
{
    match sep {
        Separator::Slash => c == '/',
        Separator::WhiteSpace => char_is_whitespace(c),
    }
}

/// Splits `s` into its tokens.
pub fn split_tokens(s: &str, sep: Separator) -> (r: Vec<String>)
    ensures
        strs(r@) == tokens(s@, sep),
{
    let n = s.unicode_len();
    let mut done: Vec<String> = Vec::new();
    let mut cur = String::new();
    let mut i: usize = 0;
    while i < n
        invariant
            n == s@.len(),
            i <= n,
            (done@.map_values(|t: String| t@), cur@) == tokens_upto(s@, i as int, sep),
        decreases n - i,
    {
        let c = s.get_char(i);
        if is_separator_char(sep, c) {
            if cur.unicode_len() > 0 {
                let ghost before = done@;
                done.push(cur);
                assert(done@.map_values(|t: String| t@) =~= before.map_values(|t: String| t@).push(
                    cur@,
                ));
                cur = String::new();
            }
        } else {
            push_char(&mut cur, c);
        }
        i = i + 1;
    }
    if cur.unicode_len() > 0 {
        let ghost before = done@;
        done.push(cur);
        assert(done@.map_values(|t: String| t@) =~= before.map_values(|t: String| t@).push(cur@));
    }
    done
}

/// `p` occurs in `t` at `i`.
pub open spec fn occurs_at(t: Seq<char>, p: Seq<char>, i: int) -> bool {
    0 <= i && i + p.len() <= t.len() && t.subrange(i, i + p.len()) == p
}

/// Where the last piece begins when `t` is cut at the matches of `p` found
/// from `i` on, left to right and without overlap, the current piece having
/// begun at `start`.
pub open spec fn last_piece_start(t: Seq<char>, p: Seq<char>, i: int, start: int) -> int
    decreases t.len() - i,
{
    if p.len() == 0 || i + p.len() > t.len() {
        start
    } else if occurs_at(t, p, i) {
        last_piece_start(t, p, i + p.len(), i + p.len())
    } else {
        last_piece_start(t, p, i + 1, start)
    }
}

/// The last piece of `t` cut at the matches of `p`, found left to right
/// without overlap; empty where `p` is.
pub open spec fn last_piece(t: Seq<char>, p: Seq<char>) -> Seq<char> {
    if p.len() == 0 {
        Seq::empty()
    } else {
        t.subrange(last_piece_start(t, p, 0, 0), t.len() as int)
    }
}

pub(crate) fn occurs_at_exec(t: &str, n: usize, p: &str, m: usize, i: usize) -> (r: bool)
    requires
        n == t@.len(),
        m == p@.len(),
        i + m <= n,
    ensures
        r == occurs_at(t@, p@, i as int),
{
    let mut j: usize = 0;
    while j < m
        invariant
            n == t@.len(),
            m == p@.len(),
            i + m <= n,
            j <= m,
            forall|k: int| 0 <= k < j ==> t@[i + k] == p@[k],
        decreases m - j,
    {
        if t.get_char(i + j) != p.get_char(j) {
            assert(t@.subrange(i as int, i + m)[j as int] != p@[j as int]);
            return false;
        }
        j = j + 1;
    }
    assert(t@.subrange(i as int, i + m) =~= p@);
    true
}

} // verus!
