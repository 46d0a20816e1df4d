//! A map of token id -> minimum fee, kept valid, with a cached digest that
//! always matches its contents.

use crate::digest::{digest_entries, digest_text};
use crate::listing::{entries_of, lemma_entries_of, lists_map, sorted_entries};
use crate::token::{TokenId, MOB_MINIMUM_FEE, MOB_TOKEN_ID};
use std::collections::BTreeMap;
use vstd::prelude::*;
use vstd::string::StringExecFns;

verus! {

/// A node's address, as the network names it.
#[derive(Clone, Debug, PartialEq, Eq, Hash)]
pub struct ResponderId(pub String);

/// Fee Map error type.
#[derive(Clone, Copy, Debug, PartialEq, Eq, Structural, PartialOrd)]
pub enum Error {
    /// The token has a fee of zero, which is given too.
    InvalidFee(TokenId, u64),
    /// The base token, whose id is given, has no fee in the map.
    MissingFee(TokenId),
}

/// Some token in `m` has a fee of zero.
pub open spec fn has_zero_fee(m: Map<u32, u64>) -> bool {
    exists|k: u32| #[trigger] m.contains_key(k) && m[k] == 0
}

/// `k` is the smallest token id in `m` whose fee is zero.
pub open spec fn is_first_zero_fee(m: Map<u32, u64>, k: u32) -> bool {
    &&& m.contains_key(k)
    &&& m[k] == 0
    &&& forall|j: u32| #[trigger] m.contains_key(j) && m[j] == 0 ==> k <= j
}

/// The smallest token id in `m` whose fee is zero.
pub open spec fn first_zero_fee(m: Map<u32, u64>) -> u32 {
    choose|k: u32| is_first_zero_fee(m, k)
}

/// Every fee is positive and the base token has one.
pub open spec fn valid_fees(m: Map<u32, u64>) -> bool {
    &&& m.contains_key(MOB_TOKEN_ID)
    &&& forall|k: u32| #[trigger] m.contains_key(k) ==> m[k] > 0
}

/// The outcome of checking a candidate fee map: the first zero fee in
/// ascending order of token id, else a missing base token, else success.
pub open spec fn check_fees(m: Map<u32, u64>) -> Result<(), Error> {
    if has_zero_fee(m) {
        Err(Error::InvalidFee(TokenId(first_zero_fee(m)), 0))
    } else if !m.contains_key(MOB_TOKEN_ID) {
        Err(Error::MissingFee(TokenId(MOB_TOKEN_ID)))
    } else {
        Ok(())
    }
}

/// The default fee map: the base token at its minimum fee.
pub open spec fn default_fees() -> Map<u32, u64> {
    map![MOB_TOKEN_ID => MOB_MINIMUM_FEE]
}

/// The digest text of a fee map's contents.
pub open spec fn fee_digest(m: Map<u32, u64>) -> Seq<char> {
    digest_text(entries_of(m))
}

proof fn lemma_check_fees_ok(m: Map<u32, u64>)
    ensures
        check_fees(m) is Ok <==> valid_fees(m),
{
    if !valid_fees(m) && m.contains_key(MOB_TOKEN_ID) {
        let k = choose|k: u32| m.contains_key(k) && !(m[k] > 0);
        assert(m.contains_key(k) && m[k] == 0);
    }
}

/// A valid map of token id to minimum fee, together with its digest.
#[derive(Clone, Debug, PartialEq, Eq)]
pub struct FeeMap {
    /// The fee of each token, keyed by the token id's number. A BTreeMap
    /// lists its entries in ascending order of key, which the digest relies
    /// on.
    map: BTreeMap<u32, u64>,
    /// Cached digest value, formatted as a string, suitable for appending to
    /// a responder id.
    cached_digest: String,
}

impl View for FeeMap {
    type V = Map<u32, u64>;

    closed spec fn view(&self) -> Map<u32, u64> {
        self.map@
    }
}

impl FeeMap {
    /// The map is valid and the cached digest matches it.
    pub closed spec fn wf(&self) -> bool {
        &&& valid_fees(self.map@)
        &&& lists_map(entries_of(self.map@), self.map@)
        &&& self.cached_digest@ == fee_digest(self.map@)
        &&& self.cached_digest@.len() == 64
    }

    /// The cached digest text.
    pub closed spec fn digest(&self) -> Seq<char> {
        self.cached_digest@
    }

    /// What every fee map satisfies.
    pub proof fn lemma_well_formed(&self)
        requires
            self.wf(),
        ensures
            valid_fees(self@),
            lists_map(entries_of(self@), self@),
            self.digest() == fee_digest(self@),
            fee_digest(self@).len() == 64,
    {
    }

    /// Checks that every fee is positive and that the base token has a fee.
    /// The first zero fee in ascending order of token id is reported before
    /// a missing base token.
    pub fn is_valid_map(minimum_fees: &BTreeMap<u32, u64>) -> (r: Result<(), Error>)
        ensures
            r == check_fees(minimum_fees@),
            r is Ok <==> valid_fees(minimum_fees@),
    {
        proof {
            lemma_check_fees_ok(minimum_fees@);
        }
        let entries = sorted_entries(minimum_fees);
        let ghost m = minimum_fees@;
        let mut i: usize = 0;
        while i < entries.len()
            invariant
                m == minimum_fees@,
                check_fees(m) is Ok <==> valid_fees(m),
                lists_map(entries@, m),
                i <= entries@.len(),
                forall|p: int| 0 <= p < i ==> entries@[p].1 != 0,
            decreases entries@.len() - i,
        {
            let (token_id, fee) = entries[i];
            if fee == 0 {
                proof {
                    assert forall|j: u32| #[trigger] m.contains_key(j) && m[j] == 0 implies token_id
                        <= j by {
                        let p = choose|p: int| 0 <= p < entries@.len() && entries@[p].0 == j;
                        assert(m.contains_key(entries@[p].0));
                        if p < i {
                            assert(entries@[p].1 != 0);
                        }
                    }
                    assert(m.contains_key(entries@[i as int].0));
                    assert(is_first_zero_fee(m, token_id));
                    let k = first_zero_fee(m);
                    assert(is_first_zero_fee(m, k));
                    assert(k == token_id);
                    assert(has_zero_fee(m));
                }
                return Err(Error::InvalidFee(TokenId(token_id), fee));
            }
            i = i + 1;
        }
        proof {
            assert forall|k: u32| #[trigger] m.contains_key(k) implies m[k] != 0 by {
                let p = choose|p: int| 0 <= p < entries@.len() && entries@[p].0 == k;
                assert(m.contains_key(entries@[p].0));
            }
        }
        if !minimum_fees.contains_key(&MOB_TOKEN_ID) {
            return Err(Error::MissingFee(TokenId(MOB_TOKEN_ID)));
        }
        Ok(())
    }

    /// Replaces the map by `minimum_fees` if it is given and valid, or by the
    /// default map if it is not given, and recomputes the digest. An invalid
    /// map is reported and leaves the fee map unchanged.
    pub fn update_or_default(&mut self, minimum_fees: Option<BTreeMap<u32, u64>>) -> (r: Result<
        (),
        Error,
    >)
        requires
            old(self).wf(),
        ensures
            final(self).wf(),
            match minimum_fees {
                Some(m) => {
                    &&& r == check_fees(m@)
                    &&& r is Ok ==> final(self)@ == m@
                    &&& r is Err ==> *final(self) == *old(self)
                },
                None => r is Ok && final(self)@ == default_fees(),
            },
    {
        if let Some(minimum_fees) = minimum_fees {
            let valid = Self::is_valid_map(&minimum_fees);
            if valid.is_err() {
                return valid;
            }
            self.map = minimum_fees;
        } else {
            self.map = Self::default_map();
        }
        // The digest must be updated whenever the map is.
        self.cached_digest = calc_digest_for_map(&self.map);
        Ok(())
    }

    /// The default map: the base token at its minimum fee.
    pub fn default_map() -> (r: BTreeMap<u32, u64>)
        ensures
            r@ == default_fees(),
            valid_fees(r@),
    {
        let mut map = BTreeMap::new();
        map.insert(MOB_TOKEN_ID, MOB_MINIMUM_FEE);
        proof {
            assert(map@ =~= default_fees());
            assert(map@.dom() =~= set![MOB_TOKEN_ID]);
            assert(MOB_MINIMUM_FEE == 400_000_000);
        }
        map
    }
}

/// The map built from `pairs` inserted in order; a later pair replaces an
/// earlier one with the same token id.
pub open spec fn map_of_pairs(pairs: Seq<(TokenId, u64)>) -> Map<u32, u64>
    decreases pairs.len(),
{
    if pairs.len() == 0 {
        Map::empty()
    } else {
        map_of_pairs(pairs.drop_last()).insert(pairs.last().0@, pairs.last().1)
    }
}

impl Default for FeeMap {
    fn default() -> (r: FeeMap)
        ensures
            r.wf(),
            r@ == default_fees(),
    {
        let map = Self::default_map();
        proof {
            assert(map@.dom() =~= set![MOB_TOKEN_ID]);
        }
        let cached_digest = calc_digest_for_map(&map);
        FeeMap { map, cached_digest }
    }
}

impl FeeMap {
    /// Builds a fee map from a map of token id to fee, if it is valid.
    pub fn try_from(map: BTreeMap<u32, u64>) -> (r: Result<FeeMap, Error>)
        ensures
            r is Ok <==> valid_fees(map@),
            match r {
                Ok(f) => f.wf() && f@ == map@,
                Err(e) => check_fees(map@) == Err::<(), Error>(e),
            },
    {
        match Self::is_valid_map(&map) {
            Err(e) => Err(e),
            Ok(()) => {
                let cached_digest = calc_digest_for_map(&map);
                Ok(FeeMap { map, cached_digest })
            },
        }
    }

    /// Builds a fee map from pairs in any order; a later pair replaces an
    /// earlier one with the same token id.
    pub fn try_from_iter(iter: Vec<(TokenId, u64)>) -> (r: Result<FeeMap, Error>)
        ensures
            r is Ok <==> valid_fees(map_of_pairs(iter@)),
            match r {
                Ok(f) => f.wf() && f@ == map_of_pairs(iter@),
                Err(e) => check_fees(map_of_pairs(iter@)) == Err::<(), Error>(e),
            },
    {
        let mut map: BTreeMap<u32, u64> = BTreeMap::new();
        let mut i: usize = 0;
        while i < iter.len()
            invariant
                i <= iter@.len(),
                map@ == map_of_pairs(iter@.subrange(0, i as int)),
            decreases iter@.len() - i,
        {
            let (token_id, fee) = iter[i];
            proof {
                let s = iter@.subrange(0, i + 1);
                assert(s.drop_last() =~= iter@.subrange(0, i as int));
            }
            map.insert(token_id.0, fee);
            i = i + 1;
        }
        assert(iter@.subrange(0, i as int) =~= iter@);
        Self::try_from(map)
    }

    /// Appends the digest to an existing responder id, giving a responder id
    /// that is unique to the current fee configuration.
    pub fn responder_id(&self, responder_id: &ResponderId) -> (r: ResponderId)
        requires
            self.wf(),
        ensures
            r.0@ == responder_id.0@ + seq!['-'] + fee_digest(self@),
            r.0@.len() == responder_id.0@.len() + 65,
    {
        let mut s = responder_id.0.clone();
        s.append("-");
        s.append(self.cached_digest.as_str());
        proof {
            reveal_strlit("-");
        }
        ResponderId(s)
    }

    /// The fee for a token id, or None if no fee is set for that token.
    pub fn get_fee_for_token(&self, token_id: &TokenId) -> (r: Option<u64>)
        ensures
            r == (if self@.contains_key(token_id@) {
                Some(self@[token_id@])
            } else {
                None
            }),
    {
        match self.map.get(&token_id.0) {
            Some(fee) => Some(*fee),
            None => None,
        }
    }

    /// All entries, in ascending order of token id.
    pub fn iter(&self) -> (r: Vec<(TokenId, u64)>)
        requires
            self.wf(),
        ensures
            r@.len() == entries_of(self@).len(),
            forall|i: int|
                0 <= i < r@.len() ==> r@[i].0@ == entries_of(self@)[i].0 && r@[i].1 == entries_of(
                    self@,
                )[i].1,
    {
        let entries = sorted_entries(&self.map);
        let mut out: Vec<(TokenId, u64)> = Vec::new();
        let mut i: usize = 0;
        while i < entries.len()
            invariant
                i <= entries@.len(),
                out@.len() == i,
                forall|p: int|
                    0 <= p < i ==> out@[p].0@ == entries@[p].0 && out@[p].1 == entries@[p].1,
            decreases entries@.len() - i,
        {
            let (token_id, fee) = entries[i];
            out.push((TokenId(token_id), fee));
            i = i + 1;
        }
        out
    }
}

/// The digest text of a map's contents.
fn calc_digest_for_map(map: &BTreeMap<u32, u64>) -> (r: String)
    ensures
        r@ == fee_digest(map@),
        r@.len() == 64,
        lists_map(entries_of(map@), map@),
{
    let entries = sorted_entries(map);
    digest_entries(&entries)
}

} // verus!
