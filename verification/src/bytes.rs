//! Searching in byte strings.

use vstd::prelude::*;

verus! {

/// The first `x` in `s` is at `i`, where `x` is at `i` and not before.
pub proof fn lemma_first_at<T>(s: Seq<T>, x: T, i: int)
    requires
        0 <= i < s.len(),
        s[i] == x,
        forall|j: int| 0 <= j < i ==> s[j] != x,
    ensures
        s.index_of_first(x) == Some(i),
{
    s.index_of_first_ensures(x);
}

/// The index of the first `b` in `s`.
#[verifier::loop_isolation(false)]
pub fn find_byte(s: &[u8], b: u8) -> (r: Option<usize>)
    ensures
        r is Some <==> s@.index_of_first(b) is Some,
        r matches Some(i) ==> i < s@.len() && s@.index_of_first(b) == Some(i as int),
{
    proof {
        s@.index_of_first_ensures(b);
    }
    for i in 0..s.len()
        invariant
            forall|j: int| 0 <= j < i ==> s@[j] != b,
    {
        if s[i] == b {
            return Some(i);
        }
    }
    None
}

/// Whether `s` begins with `prefix`.
pub fn starts_with(s: &[u8], prefix: &[u8]) -> (r: bool)
    ensures
        r == prefix@.is_prefix_of(s@),
{
    if prefix.len() > s.len() {
        return false;
    }
    for i in 0..prefix.len()
        invariant
            prefix@.len() <= s@.len(),
            forall|j: int| 0 <= j < i ==> s@[j] == prefix@[j],
    {
        if s[i] != prefix[i] {
            return false;
        }
    }
    true
}

} // verus!
