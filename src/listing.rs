//! Listing the entries of a fee table in ascending order of token id.

use crate::digest::{keys_ascending, Entries};
use std::collections::BTreeMap;
use vstd::prelude::*;
use vstd::std_specs::cmp::OrdSpec;
use vstd::std_specs::iter::IteratorSpec;

verus! {

/// `s` lists every entry of `m` exactly once, in ascending order of key.
pub open spec fn lists_map(s: Entries, m: Map<u32, u64>) -> bool {
    &&& keys_ascending(s)
    &&& forall|i: int| 0 <= i < s.len() ==> #[trigger] m.contains_key(s[i].0) && m[s[i].0] == s[i].1
    &&& forall|k: u32| #[trigger] m.contains_key(k) ==> exists|i: int| 0 <= i < s.len() && s[i].0 == k
}

/// The entries of `m` in ascending order of key.
pub open spec fn entries_of(m: Map<u32, u64>) -> Entries {
    choose|s: Entries| lists_map(s, m)
}

/// A map has at most one ascending listing.
pub proof fn lemma_listing_unique(s1: Entries, s2: Entries, m: Map<u32, u64>)
    requires
        lists_map(s1, m),
        lists_map(s2, m),
    ensures
        s1 == s2,
    decreases s1.len(),
{
    if s1.len() == 0 {
        if s2.len() > 0 {
            assert(m.contains_key(s2[0].0));
        }
        assert(s1 =~= s2);
    } else {
        let k1 = s1[0].0;
        assert(m.contains_key(k1));
        let j = choose|j: int| 0 <= j < s2.len() && s2[j].0 == k1;
        let k2 = s2[0].0;
        assert(m.contains_key(k2));
        let i = choose|i: int| 0 <= i < s1.len() && s1[i].0 == k2;
        assert(k1 == k2);
        let m2 = m.remove(k1);
        lemma_listing_rest(s1, m);
        lemma_listing_rest(s2, m);
        lemma_listing_unique(s1.drop_first(), s2.drop_first(), m2);
        assert(s1 =~= seq![s1[0]] + s1.drop_first());
        assert(s2 =~= seq![s2[0]] + s2.drop_first());
    }
}

proof fn lemma_listing_rest(s: Entries, m: Map<u32, u64>)
    requires
        lists_map(s, m),
        s.len() > 0,
    ensures
        lists_map(s.drop_first(), m.remove(s[0].0)),
{
    let k0 = s[0].0;
    let t = s.drop_first();
    let m2 = m.remove(k0);
    assert forall|i: int| 0 <= i < t.len() implies #[trigger] m2.contains_key(t[i].0) && m2[t[i].0]
        == t[i].1 by {
        assert(s[i + 1] == t[i]);
        assert(m.contains_key(s[i + 1].0));
    }
    assert forall|k: u32| #[trigger] m2.contains_key(k) implies exists|i: int|
        0 <= i < t.len() && t[i].0 == k by {
        assert(m.contains_key(k));
        let i = choose|i: int| 0 <= i < s.len() && s[i].0 == k;
        assert(t[i - 1].0 == k);
    }
}

/// A listing found by any means is the listing of the map.
pub proof fn lemma_entries_of(s: Entries, m: Map<u32, u64>)
    requires
        lists_map(s, m),
    ensures
        entries_of(m) == s,
        lists_map(entries_of(m), m),
{
    lemma_listing_unique(entries_of(m), s, m);
}

/// The entries of a map, in ascending order of key.
pub fn sorted_entries(map: &BTreeMap<u32, u64>) -> (r: Vec<(u32, u64)>)
    ensures
        lists_map(r@, map@),
        r@ == entries_of(map@),
        r@.len() == map@.dom().len(),
{
    let mut out: Vec<(u32, u64)> = Vec::new();
    assert(vstd::laws_cmp::obeys_cmp::<u32>());
    assert(vstd::std_specs::btree::key_obeys_cmp_spec::<u32>());
    let ghost v = vstd::std_specs::btree::spec_btree_map_iter(map).remaining();
    for kv in it: map.iter()
        invariant
            it.seq() == v,
            out@.len() == it.index(),
            forall|i: int| 0 <= i < it.index() ==> out@[i] == (*v[i].0, *v[i].1),
    {
        out.push((*kv.0, *kv.1));
    }
    proof {
        assert(out@.len() == v.len());
        let keys = v.map_values(|kv: (&u32, &u64)| *kv.0);
        assert(vstd::std_specs::btree::increasing_seq(keys));
        assert forall|i: int, j: int| 0 <= i < j < out@.len() implies out@[i].0 < out@[j].0 by {
            assert(keys[i].cmp_spec(&keys[j]) is Less);
        }
        assert forall|i: int| 0 <= i < out@.len() implies #[trigger] map@.contains_key(out@[i].0)
            && map@[out@[i].0] == out@[i].1 by {
            assert(map@.contains_key(*v[i].0));
        }
        assert forall|k: u32| #[trigger] map@.contains_key(k) implies exists|i: int|
            0 <= i < out@.len() && out@[i].0 == k by {
            assert(v.contains((&k, &map@[k])));
            let i = choose|i: int| 0 <= i < v.len() && v[i] == (&k, &map@[k]);
            assert(out@[i].0 == k);
        }
        lemma_entries_of(out@, map@);
    }
    out
}

} // verus!
