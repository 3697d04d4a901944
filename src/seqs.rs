//! Small facts and operations on sequences of identifiers.
use vstd::prelude::*;

verus! {

/// Removes the first occurrence of `x` from `v`, if there is one.
pub(crate) fn remove_first(v: &mut Vec<usize>, x: usize)
    ensures
        final(v)@ == old(v)@.remove_value(x),
        old(v)@.no_duplicates() ==> final(v)@.no_duplicates(),
        old(v)@.no_duplicates() ==> forall|y: usize|
            #[trigger] final(v)@.contains(y) <==> (old(v)@.contains(y) && y != x),
{
    let mut i: usize = 0;
    while i < v.len()
        invariant
            0 <= i <= v@.len(),
            v@ == old(v)@,
            forall|j: int| 0 <= j < i ==> v@[j] != x,
        ensures
            0 <= i <= v@.len(),
            v@ == old(v)@,
            forall|j: int| 0 <= j < i ==> v@[j] != x,
            i < v@.len() ==> v@[i as int] == x,
        decreases v@.len() - i,
    {
        if v[i] == x {
            break;
        }
        i = i + 1;
    }
    let ghost q = v@;
    proof {
        q.index_of_first_ensures(x);
    }
    if i < v.len() {
        proof {
            assert(q[i as int] == x);
            assert(q.contains(x));
            let k = q.index_of_first(x)->0;
            assert(k == i as int) by {
                if k < i {
                    assert(q[k] != x);
                }
                if k > i {
                    assert(q[i as int] == x);
                }
            }
        }
        v.remove(i);
        proof {
            if q.no_duplicates() {
                assert forall|a: int, b: int| 0 <= a < b < v@.len() implies v@[a] != v@[b] by {
                    let a2 = if a < i { a } else { a + 1 };
                    let b2 = if b < i { b } else { b + 1 };
                    assert(q[a2] != q[b2]);
                }
                assert forall|y: usize| #[trigger] v@.contains(y) <==> (q.contains(y) && y != x) by {
                    if v@.contains(y) {
                        let j = choose|j: int| 0 <= j < v@.len() && v@[j] == y;
                        let j2 = if j < i { j } else { j + 1 };
                        assert(q[j2] == y);
                        assert(j2 != i);
                    }
                    if q.contains(y) && y != x {
                        let j = choose|j: int| 0 <= j < q.len() && q[j] == y;
                        assert(j != i);
                        let j2 = if j < i { j } else { j - 1 };
                        assert(v@[j2] == y);
                    }
                }
            }
        }
    }
}

} // verus!
