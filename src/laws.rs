//! Facts relating the operations of a fee map to one another.

use crate::digest::{lemma_messages_injective, transcript_messages};
use crate::fee_map::{fee_digest, map_of_pairs, FeeMap, ResponderId};
use crate::listing::{entries_of, lists_map};
use crate::token::TokenId;
use vstd::prelude::*;

verus! {

proof fn lemma_listing_determines_map(s: Seq<(u32, u64)>, m1: Map<u32, u64>, m2: Map<u32, u64>)
    requires
        lists_map(s, m1),
        lists_map(s, m2),
    ensures
        m1 == m2,
{
    assert forall|k: u32| m1.contains_key(k) implies m2.contains_key(k) && m1[k] == m2[k] by {
        assert(m1.contains_key(k));
        let i = choose|i: int| 0 <= i < s.len() && s[i].0 == k;
        assert(m2.contains_key(s[i].0));
    }
    assert forall|k: u32| m2.contains_key(k) implies m1.contains_key(k) by {
        assert(m2.contains_key(k));
        let i = choose|i: int| 0 <= i < s.len() && s[i].0 == k;
        assert(m1.contains_key(s[i].0));
    }
    assert(m1 =~= m2);
}

/// The digest follows the contents: fee maps with equal contents have equal
/// digests, and fee maps with different contents hand different messages to
/// the transcript, so that their digests differ unless the transcript's hash
/// collides.
pub proof fn lemma_digest_tracks_contents(f1: FeeMap, f2: FeeMap)
    requires
        f1.wf(),
        f2.wf(),
    ensures
        f1@ == f2@ ==> fee_digest(f1@) == fee_digest(f2@),
        f1@ != f2@ ==> transcript_messages(entries_of(f1@)) != transcript_messages(entries_of(f2@)),
{
    f1.lemma_well_formed();
    f2.lemma_well_formed();
    if f1@ != f2@ && transcript_messages(entries_of(f1@)) == transcript_messages(entries_of(f2@)) {
        lemma_messages_injective(entries_of(f1@), entries_of(f2@));
        lemma_listing_determines_map(entries_of(f1@), f1@, f2@);
    }
}

/// One fee map appended to two different responder ids gives two different
/// responder ids.
pub proof fn lemma_distinct_responder_ids(f: FeeMap, r1: ResponderId, r2: ResponderId)
    requires
        r1.0@ != r2.0@,
    ensures
        r1.0@ + seq!['-'] + fee_digest(f@) != r2.0@ + seq!['-'] + fee_digest(f@),
{
    let d = fee_digest(f@);
    let (a, b) = (r1.0@ + seq!['-'] + d, r2.0@ + seq!['-'] + d);
    if a == b {
        assert(a.len() == r1.0@.len() + 1 + d.len());
        assert(b.len() == r2.0@.len() + 1 + d.len());
        assert(a.subrange(0, r1.0@.len() as int) =~= r1.0@);
        assert(b.subrange(0, r2.0@.len() as int) =~= r2.0@);
    }
}

/// No two pairs share a token id.
pub open spec fn distinct_ids(p: Seq<(TokenId, u64)>) -> bool {
    forall|i: int, j: int| 0 <= i < j < p.len() ==> p[i].0@ != p[j].0@
}

proof fn lemma_map_of_distinct_pairs(p: Seq<(TokenId, u64)>)
    requires
        distinct_ids(p),
    ensures
        forall|k: u32|
            #[trigger] map_of_pairs(p).contains_key(k) <==> exists|i: int|
                0 <= i < p.len() && p[i].0@ == k,
        forall|i: int| 0 <= i < p.len() ==> #[trigger] map_of_pairs(p)[p[i].0@] == p[i].1,
    decreases p.len(),
{
    if p.len() > 0 {
        let q = p.drop_last();
        assert(distinct_ids(q)) by {
            assert forall|i: int, j: int| 0 <= i < j < q.len() implies q[i].0@ != q[j].0@ by {
                assert(q[i] == p[i] && q[j] == p[j]);
            }
        }
        lemma_map_of_distinct_pairs(q);
        let n = p.len() - 1;
        assert(p.last() == p[n]);
        assert(map_of_pairs(p) == map_of_pairs(q).insert(p[n].0@, p[n].1));
        assert forall|k: u32| #[trigger] map_of_pairs(p).contains_key(k) implies exists|i: int|
            0 <= i < p.len() && p[i].0@ == k by {
            if k != p[n].0@ {
                assert(map_of_pairs(q).contains_key(k));
                let i = choose|i: int| 0 <= i < q.len() && q[i].0@ == k;
                assert(p[i] == q[i]);
            } else {
                assert(0 <= n < p.len() && p[n].0@ == k);
            }
        }
        assert forall|k: u32| (exists|i: int| 0 <= i < p.len() && p[i].0@ == k) implies #[trigger] map_of_pairs(p).contains_key(k) by {
            let i = choose|i: int| 0 <= i < p.len() && p[i].0@ == k;
            if i < n {
                assert(q[i] == p[i]);
            }
        }
        assert forall|i: int| 0 <= i < p.len() implies #[trigger] map_of_pairs(p)[p[i].0@] == p[i].1 by {
            if i < n {
                assert(q[i] == p[i]);
                assert(p[i].0@ != p[n].0@);
            }
        }
    }
}

/// The order in which pairs are given does not matter: two sequences of
/// pairs with distinct token ids that hold the same pairs give the same map,
/// and so the same digest.
pub proof fn lemma_insertion_order_irrelevant(p1: Seq<(TokenId, u64)>, p2: Seq<(TokenId, u64)>)
    requires
        distinct_ids(p1),
        distinct_ids(p2),
        forall|e: (TokenId, u64)| p1.contains(e) <==> p2.contains(e),
    ensures
        map_of_pairs(p1) == map_of_pairs(p2),
        fee_digest(map_of_pairs(p1)) == fee_digest(map_of_pairs(p2)),
{
    lemma_map_of_distinct_pairs(p1);
    lemma_map_of_distinct_pairs(p2);
    let (m1, m2) = (map_of_pairs(p1), map_of_pairs(p2));
    assert forall|k: u32| #[trigger] m1.contains_key(k) implies m2.contains_key(k) && m1[k] == m2[k] by {
        let i = choose|i: int| 0 <= i < p1.len() && p1[i].0@ == k;
        assert(p1.contains(p1[i]));
        let j = choose|j: int| 0 <= j < p2.len() && p2[j] == p1[i];
        assert(m1[p1[i].0@] == p1[i].1);
        assert(m2[p2[j].0@] == p2[j].1);
        assert(0 <= j < p2.len() && p2[j].0@ == k);
    }
    assert forall|k: u32| #[trigger] m2.contains_key(k) implies m1.contains_key(k) by {
        let j = choose|j: int| 0 <= j < p2.len() && p2[j].0@ == k;
        assert(p2.contains(p2[j]));
        let i = choose|i: int| 0 <= i < p1.len() && p1[i] == p2[j];
        assert(0 <= i < p1.len() && p1[i].0@ == k);
    }
    assert forall|k: u32| #[trigger] m1.dom().contains(k) == m2.dom().contains(k) by {
        if m1.contains_key(k) {
            assert(m2.contains_key(k));
        }
        if m2.contains_key(k) {
            assert(m1.contains_key(k));
        }
    }
    assert(m1.dom() =~= m2.dom());
    assert forall|k: u32| #[trigger] m1.dom().contains(k) implies m1[k] == m2[k] by {
        assert(m1.contains_key(k));
    }
    assert(m1 =~= m2);
}

} // verus!
