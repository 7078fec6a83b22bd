//! Small verified helpers for working with the characters of strings.

use vstd::prelude::*;

verus! {

/// The characters of `s`, in order.
pub fn chars_of(s: &str) -> (r: Vec<char>)
    ensures
        r@ == s@,
{
    let mut out: Vec<char> = Vec::new();
    for c in it: s.chars()
        invariant
            out@ == it.seq().subrange(0, it.index() as int),
            it.seq() == s@,
    {
        out.push(c);
    }
    out
}

/// Relies on `FromIterator<&char> for String`: the string holds exactly the given characters.
#[verifier::external_body]
pub(crate) fn string_of(cs: &Vec<char>) -> (r: String)
    ensures
        r@ == cs@,
{
    cs.iter().collect()
}

/// Whether `c` equals the lowercase ASCII character `lower`, ignoring ASCII case.
pub open spec fn ascii_ci_eq(c: char, lower: char) -> bool {
    c == lower || ('a' <= lower <= 'z' && (c as u32) + 32 == (lower as u32))
}

pub fn ascii_ci_eq_exec(c: char, lower: char) -> (r: bool)
    ensures
        r == ascii_ci_eq(c, lower),
{
    c == lower || ('a' <= lower && lower <= 'z' && (c as u32) + 32 == (lower as u32))
}

/// Whether `s` ends with the lowercase ASCII `suffix`, ignoring ASCII case.
pub open spec fn ends_with_ci(s: Seq<char>, suffix: Seq<char>) -> bool {
    suffix.len() <= s.len() && forall|i: int|
        0 <= i < suffix.len() ==> ascii_ci_eq(#[trigger] s[s.len() - suffix.len() + i], suffix[i])
}

pub fn ends_with_ci_exec(s: &Vec<char>, suffix: &str) -> (r: bool)
    ensures
        r == ends_with_ci(s@, suffix@),
{
    let suf = chars_of(suffix);
    if suf.len() > s.len() {
        return false;
    }
    let n: usize = s.len();
    let off: usize = n - suf.len();
    let mut i: usize = 0;
    while i < suf.len()
        invariant
            suf@ == suffix@,
            n == s@.len(),
            suf@.len() <= n,
            off == n - suf@.len(),
            i <= suf@.len(),
            forall|j: int| 0 <= j < i ==> ascii_ci_eq(#[trigger] s@[s@.len() - suf@.len() + j], suf@[j]),
        decreases suf@.len() - i,
    {
        if !ascii_ci_eq_exec(s[off + i], suf[i]) {
            return false;
        }
        i = i + 1;
    }
    true
}

} // verus!
