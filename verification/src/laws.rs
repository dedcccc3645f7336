//! Laws of the replica as a whole, stated over the arena model.

use vstd::prelude::*;

use crate::data::{LinkType, ObjModel};
use crate::links::{anchor_addr, lemma_anchor_addr_injective, lemma_lookup_after_link,
    link_pair_set, link_target_set, lookup_key};
use crate::offer::get_offer_model;
use crate::resolve::lemma_resolve_latest;
use crate::store::{contains_obj, first_at, is_update_chain_link, link_tombstoned, put_post,
    record_at, tombstoned, wf_arena};

verus! {

/// Idempotent hashing: storing byte-identical content twice yields one
/// stored object. The second store returns the same address as the first
/// and leaves the arena unchanged, and a fetch at that address sees the
/// stored content after either store.
pub proof fn lemma_put_idempotent(
    s0: Seq<ObjModel>,
    s1: Seq<ObjModel>,
    s2: Seq<ObjModel>,
    o: ObjModel,
    h1: usize,
    h2: usize,
)
    requires
        put_post(s0, s1, o, h1),
        put_post(s1, s2, o, h2),
    ensures
        s2 == s1,
        h2 == h1,
        s1[h1 as int] == o,
{
    if contains_obj(s0, o) {
        assert(s1 == s0);
        assert(first_at(s0, o, h1 as int));
        assert(first_at(s0, o, h2 as int));
        if h1 < h2 {
            assert(s0[h1 as int] == o);
        }
        if h2 < h1 {
            assert(s0[h2 as int] == o);
        }
    } else {
        assert(s1 == s0.push(o));
        assert(h1 == s0.len());
        assert(s1[h1 as int] == o);
        assert(contains_obj(s1, o));
        assert(first_at(s1, o, h2 as int));
        if h2 < h1 {
            assert(s1[h2 as int] == s0[h2 as int]);
            assert(contains_obj(s0, o));
        }
        if h1 < h2 {
            assert(s1[h1 as int] == o);
        }
    }
}

/// Update-chain immutability, replica-wide: in every well-formed replica,
/// no update-chain link is ever tombstoned. Together with the validator's
/// rejection of every delete against such a link, the update chain is a
/// permanent, append-only provenance trail.
pub proof fn lemma_update_chain_permanent(s: Seq<ObjModel>, j: usize)
    requires
        wf_arena(s),
        j < s.len(),
        is_update_chain_link(s[j as int]),
    ensures
        !link_tombstoned(s, j),
{
    if link_tombstoned(s, j) {
        let i = choose|i: int| 0 <= i < s.len() && crate::store::is_delete_link_of(s[i], j);
        assert(crate::store::is_delete_link_of(s[i], j));
    }
}

/// Reading a live record returns the version committed by its strictly
/// latest update: if one live update link's timestamp is later than every
/// other's, the read resolves to that link's target, whatever order the
/// links were stored in.
pub proof fn lemma_read_returns_latest_update(s: Seq<ObjModel>, h: usize, p: (i64, usize))
    requires
        !tombstoned(s, h),
        link_pair_set(s, h, LinkType::OfferUpdates).contains(p),
        forall|q: (i64, usize)|
            link_pair_set(s, h, LinkType::OfferUpdates).contains(q) && q != p ==> q.0 < p.0,
    ensures
        get_offer_model(s, h) == record_at(s, p.1),
{
    lemma_resolve_latest(s, h, p);
}

/// Composite index isolation: hanging an index edge from one key's
/// anchor changes no other key's lookup. `t` is `s` after the edge to
/// `tg` was filed under `k1`'s anchor `b0`; every key but `k1` looks up
/// exactly as before, so records filed under one category never appear
/// under another.
pub proof fn lemma_index_isolation(
    s: Seq<ObjModel>,
    t: Seq<ObjModel>,
    k1: Seq<char>,
    b0: usize,
    tg: usize,
)
    requires
        s.len() <= usize::MAX,
        anchor_addr(s, k1) == Some(b0 as int),
        forall|k: Seq<char>| #[trigger] anchor_addr(t, k) == anchor_addr(s, k),
        link_target_set(t, b0, LinkType::AllOffers) == link_target_set(
            s,
            b0,
            LinkType::AllOffers,
        ).insert(tg),
        forall|b: usize, lt: LinkType| !(b == b0 && lt == LinkType::AllOffers) ==> #[trigger]
            link_target_set(t, b, lt) == link_target_set(s, b, lt),
    ensures
        lookup_key(t, k1) == lookup_key(s, k1).insert(tg),
        forall|k2: Seq<char>| k2 != k1 ==> #[trigger] lookup_key(t, k2) == lookup_key(s, k2),
{
    lemma_lookup_after_link(s, t, b0, tg);
    assert forall|k2: Seq<char>| k2 != k1 implies #[trigger] lookup_key(t, k2) == lookup_key(
        s,
        k2,
    ) by {
        lemma_anchor_addr_injective(s, k1, k2);
    }
}

} // verus!
