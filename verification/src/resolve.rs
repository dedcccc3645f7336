//! The record version resolver: from the address of a record's
//! originating create action to the address of its current version.
//!
//! Every update is linked directly from the original action, so resolution
//! is a single maximum-search over the live update links, not a chain
//! walk. The latest timestamp wins; a timestamp tie is broken
//! deterministically by the larger target address, so that resolution
//! depends only on which links the replica holds, never on the order they
//! arrived.

use vstd::prelude::*;

use crate::data::LinkType;
use crate::links::{good_link, is_live_link, is_live_link_any, link_pair_set};
use crate::store::Store;
use crate::data::ObjModel;

verus! {

/// The resolver's order on `(timestamp, target)` pairs: by timestamp,
/// ties broken by target address.
pub open spec fn pair_le(a: (i64, usize), b: (i64, usize)) -> bool {
    a.0 < b.0 || (a.0 == b.0 && a.1 <= b.1)
}

/// Is `p` the greatest pair of the set under the resolver's order?
pub open spec fn is_max_pair(ps: Set<(i64, usize)>, p: (i64, usize)) -> bool {
    ps.contains(p) && forall|q: (i64, usize)| ps.contains(q) ==> pair_le(q, p)
}

/// The address of the current version of the record originated at `h`:
/// the target of the greatest live update link from `h`, or `h` itself
/// when no update link exists. A function of the link set alone.
pub open spec fn resolve_model(s: Seq<ObjModel>, h: usize) -> usize {
    let ps = link_pair_set(s, h, LinkType::OfferUpdates);
    if exists|p: (i64, usize)| is_max_pair(ps, p) {
        (choose|p: (i64, usize)| is_max_pair(ps, p)).1
    } else {
        h
    }
}

/// The greatest pair of a set is unique.
pub proof fn lemma_max_pair_unique(ps: Set<(i64, usize)>, p: (i64, usize), q: (i64, usize))
    requires
        is_max_pair(ps, p),
        is_max_pair(ps, q),
    ensures
        p == q,
{
    assert(pair_le(p, q));
    assert(pair_le(q, p));
}

impl Store {
    /// Resolve the current version of the record originated at
    /// `original_action_hash`. Deletion is not consulted here: a
    /// tombstoned original with no updates still resolves to itself, and
    /// callers check liveness separately.
    #[verifier::loop_isolation(false)]
    pub fn resolve(&self, original_action_hash: usize) -> (r: usize)
        ensures
            r == resolve_model(self@, original_action_hash),
    {
        let ghost ps = link_pair_set(self@, original_action_hash, LinkType::OfferUpdates);
        let links = self.get_links(original_action_hash, LinkType::OfferUpdates);
        if links.len() == 0 {
            proof {
                if exists|p: (i64, usize)| is_max_pair(ps, p) {
                    let p = choose|p: (i64, usize)| is_max_pair(ps, p);
                    let j = choose|j: int| is_live_link(
                        self@,
                        j,
                        original_action_hash,
                        LinkType::OfferUpdates,
                        p.1,
                        p.0,
                    );
                    assert(is_live_link_any(self@, j, original_action_hash, LinkType::OfferUpdates));
                    assert(false);
                }
            }
            return original_action_hash;
        }
        let mut best_ts: i64 = links[0].timestamp;
        let mut best_target: usize = links[0].target;
        let mut k: usize = 1;
        while k < links.len()
            invariant
                1 <= k <= links@.len(),
                exists|k0: int| 0 <= k0 < k && (#[trigger] links@[k0])@.timestamp == best_ts
                    && links@[k0]@.target == best_target,
                forall|i: int| 0 <= i < k ==> pair_le(
                    ((#[trigger] links@[i])@.timestamp, links@[i]@.target),
                    (best_ts, best_target),
                ),
            decreases links@.len() - k,
        {
            let ts = links[k].timestamp;
            let tg = links[k].target;
            if best_ts < ts || (best_ts == ts && best_target <= tg) {
                best_ts = ts;
                best_target = tg;
                proof {
                    assert((links@[k as int])@.timestamp == best_ts && links@[k as int]@.target
                        == best_target);
                }
            }
            k = k + 1;
        }
        proof {
            let k0 = choose|k0: int| 0 <= k0 < links@.len() && (#[trigger] links@[k0])@.timestamp
                == best_ts && links@[k0]@.target == best_target;
            let l = links@[k0];
            assert(good_link(self@, original_action_hash, LinkType::OfferUpdates, l));
            assert(is_live_link(
                self@,
                l@.create_address as int,
                original_action_hash,
                LinkType::OfferUpdates,
                best_target,
                best_ts,
            ));
            assert(ps.contains((best_ts, best_target)));
            assert forall|q: (i64, usize)| ps.contains(q) implies pair_le(
                q,
                (best_ts, best_target),
            ) by {
                let j = choose|j: int| is_live_link(
                    self@,
                    j,
                    original_action_hash,
                    LinkType::OfferUpdates,
                    q.1,
                    q.0,
                );
                assert(is_live_link_any(self@, j, original_action_hash, LinkType::OfferUpdates));
                let kq = choose|kq: int| 0 <= kq < links@.len() && (#[trigger] links@[kq])@.create_address
                    == j;
                assert(good_link(self@, original_action_hash, LinkType::OfferUpdates, links@[kq]));
                assert(links@[kq]@.timestamp == q.0 && links@[kq]@.target == q.1);
            }
            assert(is_max_pair(ps, (best_ts, best_target)));
            let p = choose|p: (i64, usize)| is_max_pair(ps, p);
            lemma_max_pair_unique(ps, p, (best_ts, best_target));
        }
        best_target
    }
}

/// Resolution is a function of the replica's live update-link set alone:
/// two replicas holding the same links for a record agree on its current
/// version, whatever order the links arrived or were stored in.
pub proof fn lemma_resolve_order_independent(
    s1: Seq<ObjModel>,
    s2: Seq<ObjModel>,
    h: usize,
)
    requires
        link_pair_set(s1, h, LinkType::OfferUpdates) == link_pair_set(
            s2,
            h,
            LinkType::OfferUpdates,
        ),
    ensures
        resolve_model(s1, h) == resolve_model(s2, h),
{
}

/// The update with the strictly latest timestamp wins: if a live update
/// link's timestamp is later than every other's, resolution returns its
/// target.
pub proof fn lemma_resolve_latest(s: Seq<ObjModel>, h: usize, p: (i64, usize))
    requires
        link_pair_set(s, h, LinkType::OfferUpdates).contains(p),
        forall|q: (i64, usize)|
            link_pair_set(s, h, LinkType::OfferUpdates).contains(q) && q != p ==> q.0 < p.0,
    ensures
        resolve_model(s, h) == p.1,
{
    let ps = link_pair_set(s, h, LinkType::OfferUpdates);
    assert forall|q: (i64, usize)| ps.contains(q) implies pair_le(q, p) by {
        if q != p {
            assert(q.0 < p.0);
        }
    }
    assert(is_max_pair(ps, p));
    let m = choose|m: (i64, usize)| is_max_pair(ps, m);
    lemma_max_pair_unique(ps, m, p);
}

/// With no live update link, a record resolves to its own originating
/// action.
pub proof fn lemma_resolve_no_updates(s: Seq<ObjModel>, h: usize)
    requires
        link_pair_set(s, h, LinkType::OfferUpdates) == Set::<(i64, usize)>::empty(),
    ensures
        resolve_model(s, h) == h,
{
    if exists|p: (i64, usize)| is_max_pair(link_pair_set(s, h, LinkType::OfferUpdates), p) {
        let p = choose|p: (i64, usize)| is_max_pair(link_pair_set(s, h, LinkType::OfferUpdates), p);
        assert(link_pair_set(s, h, LinkType::OfferUpdates).contains(p));
    }
}

} // verus!
