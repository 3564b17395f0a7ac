use vstd::prelude::*;

use vstd::std_specs::cmp::OrdSpec;

verus! {

/// A sequence of keys in strictly increasing order.
pub open spec fn strictly_increasing(s: Seq<i32>) -> bool {
    forall|i: int, j: int| 0 <= i < j < s.len() ==> s[i] < s[j]
}

/// The keys of `keys` in increasing order.
pub open spec fn sorted_keys(keys: Set<i32>) -> Seq<i32> {
    choose|s: Seq<i32>| strictly_increasing(s) && s.to_set() == keys
}

/// Two strictly increasing sequences with the same elements are equal.
pub proof fn lemma_sorted_unique(a: Seq<i32>, b: Seq<i32>)
    requires
        strictly_increasing(a),
        strictly_increasing(b),
        a.to_set() == b.to_set(),
    ensures
        a == b,
    decreases a.len(),
{
    if a.len() == 0 {
        if b.len() > 0 {
            assert(b.to_set().contains(b[0]));
            assert(!a.contains(b[0]));
        }
        assert(a =~= b);
    } else {
        if b.len() == 0 {
            assert(a.to_set().contains(a[0]));
        }
        let x = a.last();
        let y = b.last();
        assert(a.to_set().contains(x));
        assert(b.contains(x));
        assert(b.to_set().contains(y));
        assert(a.contains(y));
        let ix = choose|i: int| 0 <= i < b.len() && b[i] == x;
        let iy = choose|i: int| 0 <= i < a.len() && a[i] == y;
        assert(x <= y) by {
            if ix < b.len() - 1 {
                assert(b[ix] < b[b.len() - 1]);
            }
        }
        assert(y <= x) by {
            if iy < a.len() - 1 {
                assert(a[iy] < a[a.len() - 1]);
            }
        }
        let a1 = a.drop_last();
        let b1 = b.drop_last();
        assert(a1.to_set() =~= b1.to_set()) by {
            assert forall|z: i32| a1.to_set().contains(z) implies b1.to_set().contains(z) by {
                let i = choose|i: int| 0 <= i < a1.len() && a1[i] == z;
                assert(a[i] == z);
                assert(z < x);
                assert(a.contains(z));
                assert(a.to_set().contains(z));
                assert(b.to_set().contains(z));
                assert(b.contains(z));
                let j = choose|j: int| 0 <= j < b.len() && b[j] == z;
                assert(j != b.len() - 1);
                assert(b1[j] == z);
            }
            assert forall|z: i32| b1.to_set().contains(z) implies a1.to_set().contains(z) by {
                let i = choose|i: int| 0 <= i < b1.len() && b1[i] == z;
                assert(b[i] == z);
                assert(z < y);
                assert(b.contains(z));
                assert(b.to_set().contains(z));
                assert(a.to_set().contains(z));
                assert(a.contains(z));
                let j = choose|j: int| 0 <= j < a.len() && a[j] == z;
                assert(j != a.len() - 1);
                assert(a1[j] == z);
            }
        }
        lemma_sorted_unique(a1, b1);
        assert(a =~= a1.push(x));
        assert(b =~= b1.push(y));
    }
}

/// Keys that the map orders increasingly are strictly increasing integers.
pub proof fn lemma_increasing_keys(s: Seq<i32>)
    requires
        vstd::std_specs::btree::increasing_seq(s),
    ensures
        strictly_increasing(s),
{
    assert forall|i: int, j: int| 0 <= i < j < s.len() implies s[i] < s[j] by {
        assert(s[i].cmp_spec(&s[j]) is Less);
    }
}

} // verus!
