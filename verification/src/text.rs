//! Conversions between strings and character vectors, and the elementary
//! predicates on character sequences that the other modules build on.

use vstd::prelude::*;

verus! {

/// `String::push` of the standard library, for which the library of
/// specifications holds none: behind the call the string is what it was
/// before, with the character at its end.
pub assume_specification[ String::push ](s: &mut String, ch: char)
    ensures
        final(s)@ == old(s)@.push(ch),
;

/// The characters of a string, in order.
pub fn chars_of(s: &str) -> (v: Vec<char>)
    ensures
        v@ == s@,
{
    let mut v: Vec<char> = Vec::new();
    for c in it: s.chars()
        invariant
            it.seq() == s@,
            v@ == it.seq().take(it.index()),
    {
        v.push(c);
    }
    v
}

/// The string made of the given characters.
pub fn string_of(v: &Vec<char>) -> (s: String)
    ensures
        s@ == v@,
{
    let mut s = String::new();
    let mut i: usize = 0;
    while i < v.len()
        invariant
            i <= v.len(),
            s@ == v@.take(i as int),
        decreases v.len() - i,
    {
        s.push(v[i]);
        i += 1;
    }
    s
}

/// Whether `s` begins with the characters of `p`.
pub open spec fn starts_with(s: Seq<char>, p: Seq<char>) -> bool {
    p.len() <= s.len() && s.take(p.len() as int) =~= p
}

/// Whether the text `x` stands somewhere in `s`.
pub open spec fn holds(s: Seq<char>, x: Seq<char>) -> bool {
    exists|i: int| 0 <= i <= s.len() && starts_with(#[trigger] s.skip(i), x)
}

/// Whether `s` ends with the characters of `p`.
pub open spec fn ends_with(s: Seq<char>, p: Seq<char>) -> bool {
    p.len() <= s.len() && s.skip(s.len() - p.len()) =~= p
}

/// The characters of a text that begins with `x`.
pub proof fn lemma_starts_with_chars(s: Seq<char>, x: Seq<char>)
    requires
        starts_with(s, x),
    ensures
        x.len() <= s.len(),
        forall|j: int| 0 <= j < x.len() ==> #[trigger] s[j] == x[j],
{
    assert forall|j: int| 0 <= j < x.len() implies #[trigger] s[j] == x[j] by {
        assert(s.take(x.len() as int)[j] == x[j]);
    }
}

/// White space as Unicode defines it (the property `White_Space`).
pub open spec fn is_space(c: char) -> bool {
    let n = c as u32;
    ||| 0x09 <= n <= 0x0D
    ||| n == 0x20
    ||| n == 0x85
    ||| n == 0xA0
    ||| n == 0x1680
    ||| 0x2000 <= n <= 0x200A
    ||| n == 0x2028
    ||| n == 0x2029
    ||| n == 0x202F
    ||| n == 0x205F
    ||| n == 0x3000
}

/// Tests a character for white space.
pub(crate) fn char_is_space(c: char) -> (b: bool)
    ensures
        b == is_space(c),
{
    let n: u32 = c as u32;
    (0x09 <= n && n <= 0x0D) || n == 0x20 || n == 0x85 || n == 0xA0 || n == 0x1680 || (0x2000 <= n
        && n <= 0x200A) || n == 0x2028 || n == 0x2029 || n == 0x202F || n == 0x205F || n == 0x3000
}

/// Tests whether `pat` stands in `text` at index `at`.
pub(crate) fn has_at(text: &Vec<char>, at: usize, pat: &Vec<char>) -> (b: bool)
    requires
        at <= text.len(),
    ensures
        b == starts_with(text@.skip(at as int), pat@),
{
    if pat.len() > text.len() - at {
        return false;
    }
    let mut k: usize = 0;
    while k < pat.len()
        invariant
            k <= pat.len(),
            at + pat.len() <= text.len(),
            forall|j: int| 0 <= j < k ==> text@[at + j] == pat@[j],
        decreases pat.len() - k,
    {
        if text[at + k] != pat[k] {
            assert(text@.skip(at as int).take(pat.len() as int)[k as int] != pat@[k as int]);
            return false;
        }
        k += 1;
    }
    true
}

/// Appends the characters of `tail` to `out`.
pub(crate) fn append_chars(out: &mut Vec<char>, tail: &Vec<char>)
    ensures
        final(out)@ == old(out)@ + tail@,
{
    let mut k: usize = 0;
    while k < tail.len()
        invariant
            k <= tail.len(),
            out@ == old(out)@ + tail@.take(k as int),
        decreases tail.len() - k,
    {
        out.push(tail[k]);
        k += 1;
    }
}

/// Appends the characters `text[from..to]` to `out`.
pub(crate) fn append_range(out: &mut Vec<char>, text: &Vec<char>, from: usize, to: usize)
    requires
        from <= to <= text.len(),
    ensures
        final(out)@ == old(out)@ + text@.subrange(from as int, to as int),
{
    let mut k: usize = from;
    while k < to
        invariant
            from <= k <= to <= text.len(),
            out@ == old(out)@ + text@.subrange(from as int, k as int),
        decreases to - k,
    {
        out.push(text[k]);
        k += 1;
    }
}

} // verus!
