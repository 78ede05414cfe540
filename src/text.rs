//! Small verified helpers on text.

use vstd::prelude::*;

verus! {

/// Whether two strings hold the same characters.
pub fn same_text(a: &str, b: &str) -> (r: bool)
    ensures
        r == (a@ == b@),
{
    let n = a.unicode_len();
    if n != b.unicode_len() {
        return false;
    }
    let mut i: usize = 0;
    while i < n
        invariant
            n == a@.len(),
            n == b@.len(),
            0 <= i <= n,
            forall|j: int| 0 <= j < i ==> a@[j] == b@[j],
        decreases n - i,
    {
        if a.get_char(i) != b.get_char(i) {
            return false;
        }
        i = i + 1;
    }
    proof {
        assert(a@ =~= b@);
    }
    true
}

/// Whether `xs` holds a string equal to `t`.
pub open spec fn contains_text(xs: Seq<String>, t: Seq<char>) -> bool {
    exists|i: int| 0 <= i < xs.len() && (#[trigger] xs[i])@ == t
}

/// Whether `xs` holds a string equal to `t`.
pub fn has_text(xs: &Vec<String>, t: &String) -> (r: bool)
    ensures
        r == contains_text(xs@, t@),
{
    let mut i: usize = 0;
    while i < xs.len()
        invariant
            0 <= i <= xs.len(),
            forall|j: int| 0 <= j < i ==> (#[trigger] xs@[j])@ != t@,
        decreases xs.len() - i,
    {
        if xs[i] == *t {
            return true;
        }
        i = i + 1;
    }
    false
}

} // verus!
