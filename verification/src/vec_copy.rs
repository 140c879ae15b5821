//! Element-wise copies of vectors of plain values.
use vstd::prelude::*;

verus! {

/// A copy of `v`, element by element, in the same order.
pub(crate) fn copy_vec<T: Copy>(v: &Vec<T>) -> (copy: Vec<T>)
    ensures
        copy@ == v@,
{
    let mut copy: Vec<T> = Vec::new();
    let mut i: usize = 0;
    while i < v.len()
        invariant
            i <= v@.len(),
            copy@ == v@.take(i as int),
        decreases v@.len() - i,
    {
        copy.push(v[i]);
        proof {
            assert(v@.take(i + 1) == v@.take(i as int).push(v@[i as int]));
        }
        i = i + 1;
    }
    proof {
        assert(v@.take(v@.len() as int) == v@);
    }
    copy
}

} // verus!
