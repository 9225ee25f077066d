//! Plain operations on sequences of characters that the parser, the
//! directory model and the pipeline share.

use vstd::prelude::*;
use vstd::std_specs::iter::IteratorSpec;

verus! {

/// `String::push` appends one character to the end of the string.
pub assume_specification[ String::push ](s: &mut String, ch: char)
    ensures
        final(s)@ == old(s)@.push(ch),
;

/// The lowercase form of a text, as `str::to_lowercase` computes it from the
/// Unicode tables. Nothing is stated of it but that it is a function of the
/// text.
pub uninterp spec fn lowercased(s: Seq<char>) -> Seq<char>;

/// `str::to_lowercase`: the lowercase equivalent of `s` as a new string.
#[verifier::external_body]
pub(crate) fn lowercase(s: &str) -> (r: String)
    ensures
        r@ == lowercased(s@),
{
    s.to_lowercase()
}

/// Whether `s` ends with `suffix`.
pub open spec fn ends_with(s: Seq<char>, suffix: Seq<char>) -> bool {
    suffix.len() <= s.len() && s.subrange(s.len() - suffix.len(), s.len() as int) == suffix
}

/// Whether `pat` occurs in `s` at position `at`.
pub open spec fn occurs_at(s: Seq<char>, at: int, pat: Seq<char>) -> bool {
    0 <= at && at + pat.len() <= s.len() && s.subrange(at, at + pat.len()) == pat
}

/// Whether `pat` occurs somewhere in `s`.
pub open spec fn contains(s: Seq<char>, pat: Seq<char>) -> bool {
    exists|at: int| occurs_at(s, at, pat)
}

/// The position of the first `c` in `s`, or the length of `s` if there is
/// none.
pub open spec fn index_of(s: Seq<char>, c: char) -> int
    decreases s.len(),
{
    if s.len() == 0 || s[0] == c {
        0
    } else {
        1 + index_of(s.skip(1), c)
    }
}

/// The pieces of `s` between occurrences of `sep`; always at least one piece.
pub open spec fn split(s: Seq<char>, sep: char) -> Seq<Seq<char>>
    decreases s.len(),
{
    let n = index_of(s, sep);
    if 0 <= n < s.len() {
        seq![s.take(n)] + split(s.skip(n + 1), sep)
    } else {
        seq![s]
    }
}

/// `index_of` is the least position that holds `c`.
pub proof fn lemma_index_of(s: Seq<char>, c: char)
    ensures
        0 <= index_of(s, c) <= s.len(),
        forall|k: int| 0 <= k < index_of(s, c) ==> s[k] != c,
        index_of(s, c) < s.len() ==> s[index_of(s, c)] == c,
    decreases s.len(),
{
    if s.len() == 0 || s[0] == c {
    } else {
        lemma_index_of(s.skip(1), c);
        assert forall|k: int| 0 <= k < index_of(s, c) implies s[k] != c by {
            if k > 0 {
                assert(s.skip(1)[k - 1] == s[k]);
            }
        }
    }
}

/// A position `n` before which no `c` stands, and which holds `c` or is the
/// end, is `index_of`.
pub proof fn lemma_index_of_is(s: Seq<char>, c: char, n: int)
    requires
        0 <= n <= s.len(),
        forall|k: int| 0 <= k < n ==> s[k] != c,
        n < s.len() ==> s[n] == c,
    ensures
        index_of(s, c) == n,
{
    lemma_index_of(s, c);
}

/// The characters of a string, in order.
pub fn to_chars(s: &str) -> (v: Vec<char>)
    ensures
        v@ == s@,
{
    let mut v: Vec<char> = Vec::new();
    let it = s.chars();
    for c in iter: it
        invariant
            v@ == iter.seq().take(iter.index() as int),
    {
        v.push(c);
    }
    v
}

/// The string made of the characters `s[from..to]`.
pub fn to_text(s: &[char], from: usize, to: usize) -> (r: String)
    requires
        from <= to <= s@.len(),
    ensures
        r@ == s@.subrange(from as int, to as int),
{
    let mut r = String::new();
    let mut i: usize = from;
    while i < to
        invariant
            from <= i <= to <= s@.len(),
            r@ == s@.subrange(from as int, i as int),
        decreases to - i,
    {
        r.push(s[i]);
        assert(s@.subrange(from as int, i as int).push(s@[i as int]) =~= s@.subrange(
            from as int,
            i + 1,
        ));
        i += 1;
    }
    r
}

/// Appends the characters `s[from..to]` to `dst`.
pub fn append(dst: &mut String, s: &[char], from: usize, to: usize)
    requires
        from <= to <= s@.len(),
    ensures
        final(dst)@ == old(dst)@ + s@.subrange(from as int, to as int),
{
    let mut i: usize = from;
    assert(dst@ + s@.subrange(from as int, from as int) =~= dst@);
    while i < to
        invariant
            from <= i <= to <= s@.len(),
            dst@ == old(dst)@ + s@.subrange(from as int, i as int),
        decreases to - i,
    {
        dst.push(s[i]);
        assert((old(dst)@ + s@.subrange(from as int, i as int)).push(s@[i as int]) =~= old(dst)@
            + s@.subrange(from as int, i + 1));
        i += 1;
    }
}

/// The position of the first `c` in `s[from..to]`, or `to` if there is none.
pub fn find(s: &[char], from: usize, to: usize, c: char) -> (at: usize)
    requires
        from <= to <= s@.len(),
    ensures
        from <= at <= to,
        at == from + index_of(s@.subrange(from as int, to as int), c),
{
    let ghost part = s@.subrange(from as int, to as int);
    let mut i: usize = from;
    while i < to && s[i] != c
        invariant
            from <= i <= to <= s@.len(),
            part == s@.subrange(from as int, to as int),
            forall|k: int| 0 <= k < i - from ==> part[k] != c,
        decreases to - i,
    {
        i += 1;
    }
    proof {
        lemma_index_of_is(part, c, i - from);
    }
    i
}

/// Decides whether `pat` occurs in `s[from..to]` at offset `at - from`.
pub fn occurs(s: &[char], from: usize, to: usize, at: usize, pat: &[char]) -> (found: bool)
    requires
        from <= at <= to <= s@.len(),
    ensures
        found == occurs_at(s@.subrange(from as int, to as int), at - from, pat@),
{
    if pat.len() > to - at {
        return false;
    }
    let ghost part = s@.subrange(from as int, to as int);
    let ghost window = part.subrange(at - from, at - from + pat@.len());
    let mut i: usize = 0;
    while i < pat.len()
        invariant
            from <= at <= to <= s@.len(),
            pat@.len() <= to - at,
            i <= pat@.len(),
            part == s@.subrange(from as int, to as int),
            window == part.subrange(at - from, at - from + pat@.len()),
            forall|k: int| 0 <= k < i ==> window[k] == pat@[k],
        decreases pat@.len() - i,
    {
        if s[at + i] != pat[i] {
            assert(window[i as int] != pat@[i as int]);
            return false;
        }
        i += 1;
    }
    assert(window =~= pat@);
    true
}

/// Decides whether `s[from..to]` ends with `pat`.
pub fn ends(s: &[char], from: usize, to: usize, pat: &[char]) -> (found: bool)
    requires
        from <= to <= s@.len(),
    ensures
        found == ends_with(s@.subrange(from as int, to as int), pat@),
{
    if pat.len() > to - from {
        return false;
    }
    occurs(s, from, to, to - pat.len(), pat)
}

/// Decides whether `pat` occurs somewhere in `s`.
pub fn includes(s: &[char], pat: &[char]) -> (found: bool)
    ensures
        found == contains(s@, pat@),
{
    let n = s.len();
    assert(s@.subrange(0, n as int) =~= s@);
    if pat.len() == 0 {
        assert(occurs_at(s@, 0, pat@)) by {
            assert(s@.subrange(0, 0) =~= pat@);
        }
        return true;
    }
    let mut at: usize = 0;
    while at < n && n - at >= pat.len()
        invariant
            n == s@.len(),
            pat@.len() > 0,
            at <= n,
            s@.subrange(0, n as int) == s@,
            forall|k: int| 0 <= k < at ==> !occurs_at(s@, k, pat@),
        decreases n - at,
    {
        if occurs(s, 0, n, at, pat) {
            return true;
        }
        at += 1;
    }
    false
}

} // verus!
