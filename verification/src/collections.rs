//! Ordered traversal of maps keyed by integers.
use std::collections::BTreeMap;
use vstd::prelude::*;

verus! {

/// Whether `s` is strictly increasing.
pub open spec fn increasing(s: Seq<u64>) -> bool {
    forall|i: int, j: int| 0 <= i < j < s.len() ==> s[i] < s[j]
}

proof fn lemma_keys_increasing<V>(m: &BTreeMap<u64, V>)
    ensures
        vstd::std_specs::btree::key_obeys_cmp_spec::<u64>(),
        ({
            let keys = vstd::std_specs::iter::IteratorSpec::remaining(
                &vstd::std_specs::btree::spec_keys_iter(m),
            ).unref();
            &&& keys.to_set() == m@.dom()
            &&& increasing(keys)
        }),
{
    broadcast use vstd::std_specs::btree::group_btree_axioms;
    broadcast use vstd::laws_cmp::group_laws_cmp;

    let keys = vstd::std_specs::iter::IteratorSpec::remaining(
                &vstd::std_specs::btree::spec_keys_iter(m),
            );
    assert(vstd::laws_cmp::obeys_cmp::<u64>());
    assert(vstd::laws_cmp::obeys_cmp::<&u64>());
    assert(vstd::std_specs::btree::increasing_seq(keys));
    assert forall|i: int, j: int| 0 <= i < j < keys.len() implies keys.unref()[i]
        < keys.unref()[j] by {
        assert(vstd::std_specs::cmp::OrdSpec::cmp_spec(&keys[i], &keys[j]) is Less);
        assert(vstd::std_specs::cmp::OrdSpec::cmp_spec(keys[i], keys[j]) is Less);
    }
}

/// The keys of `m` in increasing order.
pub fn sorted_keys<V>(m: &BTreeMap<u64, V>) -> (r: Vec<u64>)
    ensures
        increasing(r@),
        r@.to_set() == m@.dom(),
        forall|k: u64| r@.contains(k) <==> m@.contains_key(k),
{
    broadcast use vstd::std_specs::btree::group_btree_axioms;

    proof {
        lemma_keys_increasing(m);
    }
    let mut v: Vec<u64> = Vec::new();
    for k in it: m.keys()
        invariant
            v@ == it.seq().unref().take(it.index()),
    {
        v.push(*k);
    }
    assert(v@ =~= vstd::std_specs::iter::IteratorSpec::remaining(
                &vstd::std_specs::btree::spec_keys_iter(m),
            ).unref());
    assert forall|k: u64| v@.contains(k) <==> m@.contains_key(k) by {
        assert(v@.to_set().contains(k) <==> m@.dom().contains(k));
    }
    v
}

/// An increasing sequence is fixed by what it contains.
pub proof fn lemma_increasing_unique(a: Seq<u64>, b: Seq<u64>)
    requires
        increasing(a),
        increasing(b),
        forall|c: u64| a.contains(c) <==> b.contains(c),
    ensures
        a == b,
    decreases a.len(),
{
    if a.len() == 0 {
        if b.len() > 0 {
            assert(b.contains(b[0]));
        }
        assert(a =~= b);
    } else {
        assert(a.contains(a.last()));
        assert(b.contains(a.last()));
        assert(b.contains(b.last()));
        assert(a.contains(b.last()));
        let i = choose|i: int| 0 <= i < b.len() && b[i] == a.last();
        let j = choose|j: int| 0 <= j < a.len() && a[j] == b.last();
        assert(a.last() == b.last()) by {
            if i < b.len() - 1 {
                assert(b[i] < b[b.len() - 1]);
            }
            if j < a.len() - 1 {
                assert(a[j] < a[a.len() - 1]);
            }
        }
        let a0 = a.drop_last();
        let b0 = b.drop_last();
        assert forall|c: u64| a0.contains(c) <==> b0.contains(c) by {
            if a0.contains(c) {
                let k = choose|k: int| 0 <= k < a0.len() && a0[k] == c;
                assert(a[k] < a[a.len() - 1]);
                assert(a.contains(c));
                let m = choose|m: int| 0 <= m < b.len() && b[m] == c;
                assert(b0[m] == c);
            }
            if b0.contains(c) {
                let k = choose|k: int| 0 <= k < b0.len() && b0[k] == c;
                assert(b[k] < b[b.len() - 1]);
                assert(b.contains(c));
                let m = choose|m: int| 0 <= m < a.len() && a[m] == c;
                assert(a0[m] == c);
            }
        }
        assert forall|x: int, y: int| 0 <= x < y < a0.len() implies a0[x] < a0[y] by {
            assert(a[x] < a[y]);
        }
        assert forall|x: int, y: int| 0 <= x < y < b0.len() implies b0[x] < b0[y] by {
            assert(b[x] < b[y]);
        }
        lemma_increasing_unique(a0, b0);
        assert(a =~= a0.push(a.last()));
        assert(b =~= b0.push(b.last()));
    }
}

} // verus!
