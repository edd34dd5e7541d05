//! Sets of pane or tab identifiers kept as strictly increasing vectors.
//!
//! The order is part of the representation: two vectors that hold the same
//! identifiers are equal, and listing a set yields its members in ascending order.
use vstd::prelude::*;

verus! {

/// Every element is smaller than the next one.
pub open spec fn strictly_sorted(s: Seq<usize>) -> bool {
    forall|i: int, j: int| 0 <= i < j < s.len() ==> s[i] < s[j]
}

/// Two strictly increasing sequences with the same members are the same sequence.
pub proof fn lemma_sorted_unique(a: Seq<usize>, b: Seq<usize>)
    requires
        strictly_sorted(a),
        strictly_sorted(b),
        a.to_set() == b.to_set(),
    ensures
        a == b,
    decreases a.len() + b.len(),
{
    if a.len() == 0 {
        if b.len() > 0 {
            assert(b.to_set().contains(b[0]));
            assert(!a.to_set().contains(b[0]));
        }
        assert(a =~= b);
    } else if b.len() == 0 {
        assert(a.to_set().contains(a[0]));
        assert(!b.to_set().contains(a[0]));
    } else {
        // The smallest member of each set is its first element.
        assert(a.to_set().contains(a[0]));
        assert(b.to_set().contains(b[0]));
        let ia = choose|i: int| 0 <= i < b.len() && b[i] == a[0];
        let ib = choose|i: int| 0 <= i < a.len() && a[i] == b[0];
        assert(b[0] <= b[ia]);
        assert(a[0] <= a[ib]);
        assert(a[0] == b[0]);
        let ta = a.drop_first();
        let tb = b.drop_first();
        assert forall|x: usize| ta.to_set().contains(x) implies tb.to_set().contains(x) by {
            let k = choose|k: int| 0 <= k < ta.len() && ta[k] == x;
            assert(a[k + 1] == x);
            assert(a.to_set().contains(x));
            assert(b.to_set().contains(x));
            let m = choose|m: int| 0 <= m < b.len() && b[m] == x;
            assert(a[0] < a[k + 1]);
            assert(m != 0);
            assert(tb[m - 1] == x);
        }
        assert forall|x: usize| tb.to_set().contains(x) implies ta.to_set().contains(x) by {
            let k = choose|k: int| 0 <= k < tb.len() && tb[k] == x;
            assert(b[k + 1] == x);
            assert(b.to_set().contains(x));
            assert(a.to_set().contains(x));
            let m = choose|m: int| 0 <= m < a.len() && a[m] == x;
            assert(b[0] < b[k + 1]);
            assert(m != 0);
            assert(ta[m - 1] == x);
        }
        assert(ta.to_set() =~= tb.to_set());
        lemma_sorted_unique(ta, tb);
        assert(a =~= seq![a[0]] + ta);
        assert(b =~= seq![b[0]] + tb);
    }
}

/// Whether `x` occurs in `v`.
pub fn contains_id(v: &Vec<usize>, x: usize) -> (found: bool)
    ensures
        found == v@.contains(x),
{
    let mut i: usize = 0;
    while i < v.len()
        invariant
            i <= v.len(),
            forall|k: int| 0 <= k < i ==> v@[k] != x,
        decreases v.len() - i,
    {
        if v[i] == x {
            return true;
        }
        i = i + 1;
    }
    false
}

/// Adds `x` to the sorted set `v`, keeping it strictly increasing.
pub fn insert_id(v: &mut Vec<usize>, x: usize)
    requires
        strictly_sorted(old(v)@),
    ensures
        strictly_sorted(final(v)@),
        final(v)@.to_set() == old(v)@.to_set().insert(x),
{
    let mut i: usize = 0;
    while i < v.len() && v[i] < x
        invariant
            i <= v.len(),
            forall|k: int| 0 <= k < i ==> v@[k] < x,
        decreases v.len() - i,
    {
        i = i + 1;
    }
    if i < v.len() && v[i] == x {
        assert(v@.to_set().contains(x));
        assert(v@.to_set().insert(x) =~= v@.to_set());
        return ;
    }
    let ghost before = v@;
    v.insert(i, x);
    assert(v@ =~= before.subrange(0, i as int).push(x) + before.subrange(i as int, before.len() as int));
    assert forall|a: int, b: int| 0 <= a < b < v@.len() implies v@[a] < v@[b] by {
        if b < i {
        } else if b == i {
            assert(v@[a] == before[a]);
        } else if a < i {
            assert(before[a] < x);
            assert(v@[b] == before[b - 1]);
            assert(x <= before[b - 1]) by {
                assert(before[i as int] >= x);
                if b - 1 > i {
                    assert(before[i as int] < before[b - 1]);
                }
            }
        } else if a == i {
            assert(v@[b] == before[b - 1]);
            assert(before[i as int] > x);
            if b - 1 > i {
                assert(before[i as int] < before[b - 1]);
            }
        } else {
            assert(v@[a] == before[a - 1]);
            assert(v@[b] == before[b - 1]);
        }
    }
    assert forall|y: usize| v@.to_set().contains(y) == before.to_set().insert(x).contains(y) by {
        if v@.to_set().contains(y) {
            let k = choose|k: int| 0 <= k < v@.len() && v@[k] == y;
            if k < i {
                assert(before[k] == y);
            } else if k > i {
                assert(before[k - 1] == y);
            }
        }
        if before.to_set().contains(y) {
            let k = choose|k: int| 0 <= k < before.len() && before[k] == y;
            if k < i {
                assert(v@[k] == y);
            } else {
                assert(v@[k + 1] == y);
            }
        }
        if y == x {
            assert(v@[i as int] == x);
        }
    }
    assert(v@.to_set() =~= before.to_set().insert(x));
}

/// The distinct identifiers of `ids`, in ascending order.
pub fn sorted_ids(ids: &[usize]) -> (set: Vec<usize>)
    ensures
        strictly_sorted(set@),
        set@.to_set() == ids@.to_set(),
{
    let mut set: Vec<usize> = Vec::new();
    let mut i: usize = 0;
    while i < ids.len()
        invariant
            i <= ids.len(),
            strictly_sorted(set@),
            set@.to_set() == ids@.subrange(0, i as int).to_set(),
        decreases ids.len() - i,
    {
        insert_id(&mut set, ids[i]);
        assert(ids@.subrange(0, i as int + 1) =~= ids@.subrange(0, i as int).push(ids@[i as int]));
        proof {
            ids@.subrange(0, i as int).lemma_push_to_set_commute(ids@[i as int]);
        }
        i = i + 1;
    }
    assert(ids@.subrange(0, ids.len() as int) =~= ids@);
    set
}

} // verus!
