//! The path index: link edges hung from deterministically addressed
//! anchors.
//!
//! A link's existence is the set of non-tombstoned create-link actions for
//! its `(base, target, type, tag)`. An anchor for a hierarchical string key
//! is an entry holding the key, so content addressing gives every peer the
//! same anchor address for the same key with no registry. Queries return
//! edges in no guaranteed order.

use vstd::prelude::*;
use vstd::string::StringExecFns;

use crate::data::{is_create_link_obj, ActionDataModel, EntryData, EntryDataModel, LinkType, Obj,
    ObjModel};
use crate::data::{Action, ActionData, ActionModel, StoreError, ValidateCallbackResult};
use crate::store::{author_count, first_at, is_action, is_delete_link_of, is_record_action,
    is_update_chain_link, lemma_fresh_action_appends, lemma_push_record_frame,
    lemma_push_tombstones, link_tombstoned, obj_admissible, put_post, record_at, refs_ok,
    tombstoned, wf_arena, Store};
use crate::validate::{link_requires_entry_reason, validate_create_link_offer_updates,
    validate_delete_link_offer_updates, update_chain_immutable_reason};

verus! {

/// A link edge as handed back by queries: the address of the create-link
/// action that committed it, with that action's fields.
#[derive(Debug, Clone, PartialEq, Eq)]
pub struct Link {
    pub create_address: usize,
    pub author: u64,
    pub timestamp: i64,
    pub base: usize,
    pub target: usize,
    pub link_type: LinkType,
    pub tag: Vec<u8>,
}

#[verifier::ext_equal]
pub ghost struct LinkModel {
    pub create_address: usize,
    pub author: u64,
    pub timestamp: i64,
    pub base: usize,
    pub target: usize,
    pub link_type: LinkType,
    pub tag: Seq<u8>,
}

impl View for Link {
    type V = LinkModel;

    open spec fn view(&self) -> LinkModel {
        LinkModel {
            create_address: self.create_address,
            author: self.author,
            timestamp: self.timestamp,
            base: self.base,
            target: self.target,
            link_type: self.link_type,
            tag: self.tag@,
        }
    }
}

/// Does the arena hold, at index `j`, a create-link action with these
/// fields?
pub open spec fn link_model_at(s: Seq<ObjModel>, l: LinkModel) -> bool {
    &&& l.create_address < s.len()
    &&& match s[l.create_address as int] {
        ObjModel::Act(a) => {
            &&& a.author == l.author
            &&& a.timestamp == l.timestamp
            &&& a.data == (ActionDataModel::CreateLink {
                base: l.base,
                target: l.target,
                link_type: l.link_type,
                tag: l.tag,
            })
        },
        _ => false,
    }
}

/// Is index `j` a live (non-tombstoned) create-link action with this base
/// and type, this target, and this timestamp?
pub open spec fn is_live_link(
    s: Seq<ObjModel>,
    j: int,
    base: usize,
    lt: LinkType,
    target: usize,
    ts: i64,
) -> bool {
    &&& 0 <= j < s.len()
    &&& !link_tombstoned(s, j as usize)
    &&& match s[j] {
        ObjModel::Act(a) => a.timestamp == ts && match a.data {
            ActionDataModel::CreateLink { base: b, target: t, link_type: l, tag } => {
                b == base && t == target && l == lt
            },
            _ => false,
        },
        _ => false,
    }
}

/// Is index `j` a live create-link action with this base and type (of any
/// target and timestamp)?
pub open spec fn is_live_link_any(s: Seq<ObjModel>, j: int, base: usize, lt: LinkType) -> bool {
    exists|target: usize, ts: i64| is_live_link(s, j, base, lt, target, ts)
}

/// The timestamps and targets of the live links with this base and type.
/// A set: delivery and storage order leave no trace in it.
pub open spec fn link_pair_set(s: Seq<ObjModel>, base: usize, lt: LinkType) -> Set<(i64, usize)> {
    Set::new(|p: (i64, usize)| exists|j: int| is_live_link(s, j, base, lt, p.1, p.0))
}

/// The targets of the live links with this base and type.
pub open spec fn link_target_set(s: Seq<ObjModel>, base: usize, lt: LinkType) -> Set<usize> {
    Set::new(|t: usize| exists|ts: i64| link_pair_set(s, base, lt).contains((ts, t)))
}

/// The address of the anchor for key `k`, if it has been materialized.
pub open spec fn anchor_addr(s: Seq<ObjModel>, k: Seq<char>) -> Option<int> {
    if exists|i: int| first_at(s, ObjModel::Entry(EntryDataModel::Anchor(k)), i) {
        Some(choose|i: int| first_at(s, ObjModel::Entry(EntryDataModel::Anchor(k)), i))
    } else {
        None
    }
}

/// The record-action addresses filed under key `k`: the targets of the
/// live index links hung from its anchor.
pub open spec fn lookup_key(s: Seq<ObjModel>, k: Seq<char>) -> Set<usize> {
    match anchor_addr(s, k) {
        Some(b) => link_target_set(s, b as usize, LinkType::AllOffers),
        None => Set::<usize>::empty(),
    }
}

/// The well-known root key under which every record is filed.
pub open spec fn root_key() -> Seq<char> {
    "all_offers"@
}

/// The record-action addresses filed under the root key.
pub open spec fn lookup_all(s: Seq<ObjModel>) -> Set<usize> {
    lookup_key(s, root_key())
}

/// The composite index key derived from an offer's three category fields.
pub open spec fn composite_key_model(
    airport: Seq<char>,
    offered: Seq<char>,
    requested: Seq<char>,
) -> Seq<char> {
    airport + "."@ + offered + "."@ + requested
}

/// The root key as a string.
pub fn root_key_string() -> (k: String)
    ensures
        k@ == root_key(),
{
    String::from_str("all_offers")
}

/// The composite index key for a category triple.
pub fn composite_key(airport: &String, offered: &String, requested: &String) -> (k: String)
    ensures
        k@ == composite_key_model(airport@, offered@, requested@),
{
    let mut k = crate::data::clone_string(airport);
    k.append(".");
    k.append(offered.as_str());
    k.append(".");
    k.append(requested.as_str());
    proof {
        assert(k@ =~= composite_key_model(airport@, offered@, requested@));
    }
    k
}

/// Is `l` a faithful image of a live create-link action of the arena,
/// with this base and type?
pub open spec fn good_link(s: Seq<ObjModel>, base: usize, lt: LinkType, l: Link) -> bool {
    &&& l@.base == base
    &&& l@.link_type == lt
    &&& link_model_at(s, l@)
    &&& !link_tombstoned(s, l@.create_address)
}

impl Store {
    /// Fetch the live links with this base and type. The order of the
    /// returned edges carries no meaning; their set is what is specified.
    #[verifier::loop_isolation(false)]
    pub fn get_links(&self, base: usize, link_type: LinkType) -> (r: Vec<Link>)
        ensures
            forall|k: int| 0 <= k < r@.len() ==> #[trigger] good_link(self@, base, link_type, r@[k]),
            forall|j: int| is_live_link_any(self@, j, base, link_type) ==> exists|k: int|
                0 <= k < r@.len() && (#[trigger] r@[k])@.create_address == j,
            forall|k1: int, k2: int| 0 <= k1 < k2 < r@.len() ==> (#[trigger] r@[k1])@.create_address
                < (#[trigger] r@[k2])@.create_address,
    {
        let n = self.len();
        let mut r: Vec<Link> = Vec::new();
        let mut j: usize = 0;
        while j < n
            invariant
                n == self@.len(),
                j <= n,
                forall|k: int| 0 <= k < r@.len() ==> #[trigger] good_link(
                    self@,
                    base,
                    link_type,
                    r@[k],
                ),
                forall|k: int| 0 <= k < r@.len() ==> (#[trigger] r@[k])@.create_address < j,
                forall|i: int| 0 <= i < j && is_live_link_any(self@, i, base, link_type)
                    ==> exists|k: int| 0 <= k < r@.len() && (#[trigger] r@[k])@.create_address
                    == i,
                forall|k1: int, k2: int| 0 <= k1 < k2 < r@.len() ==> ((#[trigger] r@[k1])@.create_address
                    < (#[trigger] r@[k2])@.create_address),
            decreases n - j,
        {
            let ghost pre = r@;
            let mut matched = false;
            match self.get_obj(j) {
                Some(o) => {
                    match o.as_link(base, link_type) {
                        Some((target, ts, author, tag)) => {
                            if !self.is_link_tombstoned(j) {
                                let link = Link {
                                    create_address: j,
                                    author: author,
                                    timestamp: ts,
                                    base: base,
                                    target: target,
                                    link_type: link_type,
                                    tag: tag,
                                };
                                proof {
                                    assert(good_link(self@, base, link_type, link));
                                }
                                let ghost le = link;
                                r.push(link);
                                matched = true;
                                proof {
                                    assert(r@ == pre.push(le));
                                    assert forall|k: int| 0 <= k < r@.len() implies #[trigger]
                                        good_link(self@, base, link_type, r@[k])
                                        && r@[k]@.create_address < j + 1 by {
                                        if k < pre.len() {
                                            assert(r@[k] == pre[k]);
                                            assert(good_link(self@, base, link_type, pre[k]));
                                            assert(pre[k]@.create_address < j);
                                        } else {
                                            assert(r@[k] == le);
                                        }
                                    }
                                    assert forall|k1: int, k2: int| 0 <= k1 < k2 < r@.len()
                                        implies (#[trigger] r@[k1])@.create_address
                                        < (#[trigger] r@[k2])@.create_address by {
                                        assert(r@[k1] == pre[k1]);
                                        assert(pre[k1]@.create_address < j);
                                        if k2 < pre.len() {
                                            assert(r@[k2] == pre[k2]);
                                        } else {
                                            assert(r@[k2] == le);
                                        }
                                    }
                                }
                            }
                        },
                        None => {},
                    }
                },
                None => {},
            }
            proof {
                if !matched {
                    assert(r@ == pre);
                    if is_live_link_any(self@, j as int, base, link_type) {
                        let (target, ts): (usize, i64) = choose|target: usize, ts: i64|
                            is_live_link(self@, j as int, base, link_type, target, ts);
                        assert(is_create_link_obj(self@[j as int], base, link_type));
                        assert(false);
                    }
                } else {
                    assert(r@[r@.len() - 1]@.create_address == j);
                    assert(forall|i: int| 0 <= i < j && is_live_link_any(self@, i, base, link_type)
                        ==> exists|k: int| 0 <= k < pre.len() && (#[trigger] pre[k])@.create_address
                        == i);
                    assert(forall|k: int| 0 <= k < pre.len() ==> r@[k] == pre[k]);
                }
            }
            j = j + 1;
        }
        r
    }

    /// The address of the anchor for this key, if it has been
    /// materialized.
    #[verifier::loop_isolation(false)]
    pub fn find_anchor(&self, key: &String) -> (r: Option<usize>)
        ensures
            match r {
                Some(b) => anchor_addr(self@, key@) == Some(b as int),
                None => anchor_addr(self@, key@) is None,
            },
    {
        let ghost target = ObjModel::Entry(EntryDataModel::Anchor(key@));
        let n = self.len();
        let mut j: usize = 0;
        while j < n
            invariant
                n == self@.len(),
                j <= n,
                forall|i: int| 0 <= i < j ==> self@[i] != target,
            decreases n - j,
        {
            let found = match self.get_obj(j) {
                Some(o) => o.is_anchor(key),
                None => false,
            };
            if found {
                proof {
                    assert(self@[j as int] == target);
                    assert(first_at(self@, target, j as int));
                    lemma_first_at_unique_anchor(self@, target, j as int);
                }
                return Some(j);
            }
            j = j + 1;
        }
        proof {
            if anchor_addr(self@, key@) is Some {
                let i = choose|i: int| first_at(self@, target, i);
                assert(false);
            }
        }
        None
    }

    /// Materialize the anchor for this key: idempotent, and the anchor's
    /// address is a pure function of the key once materialized. No lookup
    /// changes: a fresh anchor has no edges yet.
    pub fn ensure_anchor(&mut self, key: String) -> (b: usize)
        requires
            wf_arena(old(self)@),
        ensures
            wf_arena(final(self)@),
            put_post(old(self)@, final(self)@, ObjModel::Entry(EntryDataModel::Anchor(key@)), b),
            anchor_addr(final(self)@, key@) == Some(b as int),
            b < final(self)@.len(),
            old(self)@.is_prefix_of(final(self)@),
            forall|k2: Seq<char>| k2 != key@ ==> #[trigger] anchor_addr(final(self)@, k2)
                == anchor_addr(old(self)@, k2),
            forall|b2: usize, lt2: LinkType| #[trigger] link_pair_set(final(self)@, b2, lt2)
                == link_pair_set(old(self)@, b2, lt2),
            forall|b2: usize, lt2: LinkType| #[trigger] link_target_set(final(self)@, b2, lt2)
                == link_target_set(old(self)@, b2, lt2),
            forall|x: usize| #[trigger] tombstoned(final(self)@, x) == tombstoned(old(self)@, x),
            forall|x: usize| #[trigger] record_at(final(self)@, x) == record_at(old(self)@, x),
            forall|x: usize| #[trigger] is_record_action(final(self)@, x) == is_record_action(
                old(self)@,
                x,
            ),
            forall|k2: Seq<char>| #[trigger] lookup_key(final(self)@, k2) == lookup_key(
                old(self)@,
                k2,
            ),
    {
        let ghost target = ObjModel::Entry(EntryDataModel::Anchor(key@));
        let ghost pre = self@;
        let b = self.put(Obj::Entry(EntryData::Anchor(key)));
        proof {
            if crate::store::contains_obj(pre, target) {
                assert(self@ == pre);
                assert(first_at(self@, target, b as int));
                lemma_first_at_unique_anchor(self@, target, b as int);
                assert forall|k2: Seq<char>| #[trigger] lookup_key(self@, k2) == lookup_key(
                    pre,
                    k2,
                ) by {}
            } else {
                assert(self@ == pre.push(target));
                assert(self@[b as int] == target);
                assert(forall|i: int| 0 <= i < b ==> self@[i] == pre[i]);
                assert(first_at(self@, target, b as int));
                lemma_first_at_unique_anchor(self@, target, b as int);
                lemma_push_tombstones(pre, target);
                lemma_push_record_frame(pre, target);
                lemma_push_link_frame(pre, target);
                assert forall|x: usize| #[trigger] record_at(self@, x) == record_at(pre, x) by {
                    if x as int == pre.len() {
                        assert(!is_record_action(pre, x));
                        assert(!is_record_action(self@, x));
                    }
                }
                assert forall|x: usize| #[trigger] is_record_action(self@, x) == is_record_action(
                    pre,
                    x,
                ) by {
                    if x as int == pre.len() {
                        assert(!is_record_action(pre, x));
                        assert(!is_record_action(self@, x));
                    }
                }
                assert forall|k2: Seq<char>| k2 != key@ implies #[trigger] anchor_addr(self@, k2)
                    == anchor_addr(pre, k2) by {
                    let a2 = ObjModel::Entry(EntryDataModel::Anchor(k2));
                    if anchor_addr(pre, k2) is Some {
                        let i = choose|i: int| first_at(pre, a2, i);
                        assert(self@[i] == pre[i]);
                        assert forall|j: int| 0 <= j < i implies self@[j] != a2 by {
                            assert(self@[j] == pre[j]);
                        }
                        assert(first_at(self@, a2, i));
                        lemma_anchor_addr_is(self@, k2, i);
                        lemma_anchor_addr_is(pre, k2, i);
                    } else {
                        if anchor_addr(self@, k2) is Some {
                            let i = choose|i: int| first_at(self@, a2, i);
                            if i < pre.len() {
                                assert(self@[i] == pre[i]);
                                assert forall|j: int| 0 <= j < i implies pre[j] != a2 by {
                                    assert(self@[j] == pre[j]);
                                }
                                assert(first_at(pre, a2, i));
                            } else {
                                assert(self@[i] == target);
                            }
                            assert(false);
                        }
                    }
                }
                assert forall|k2: Seq<char>| #[trigger] lookup_key(self@, k2) == lookup_key(
                    pre,
                    k2,
                ) by {
                    if k2 != key@ {
                        assert(anchor_addr(self@, k2) == anchor_addr(pre, k2));
                        match anchor_addr(pre, k2) {
                            Some(b2) => {
                                assert(link_target_set(self@, b2 as usize, LinkType::AllOffers)
                                    == link_target_set(pre, b2 as usize, LinkType::AllOffers));
                            },
                            None => {},
                        }
                    } else {
                        if anchor_addr(pre, k2) is Some {
                            let i = choose|i: int| first_at(pre, target, i);
                            assert(first_at(pre, target, i));
                            assert(false);
                        }
                        assert(lookup_key(pre, k2) == Set::<usize>::empty());
                        assert(anchor_addr(self@, k2) == Some(b as int));
                        assert(b as int == pre.len());
                        assert forall|tg: usize| !(#[trigger] link_target_set(
                            self@,
                            b,
                            LinkType::AllOffers,
                        ).contains(tg)) by {
                            if link_target_set(self@, b, LinkType::AllOffers).contains(tg) {
                                let ts = choose|ts: i64| link_pair_set(
                                    self@,
                                    b,
                                    LinkType::AllOffers,
                                ).contains((ts, tg));
                                let j = choose|j: int| is_live_link(
                                    self@,
                                    j,
                                    b,
                                    LinkType::AllOffers,
                                    tg,
                                    ts,
                                );
                                if j < pre.len() {
                                    assert(self@[j] == pre[j]);
                                    assert(refs_ok(pre[j], j));
                                } else {
                                    assert(self@[j] == target);
                                }
                                assert(false);
                            }
                        }
                        assert(lookup_key(self@, k2) =~= Set::<usize>::empty());
                    }
                }
            }
        }
        b
    }
}

/// Lookups composed from unchanged anchors and link sets are unchanged.
pub proof fn lemma_lookup_from_frames(s: Seq<ObjModel>, t: Seq<ObjModel>)
    requires
        forall|k: Seq<char>| #[trigger] anchor_addr(t, k) == anchor_addr(s, k),
        forall|b: usize| #[trigger] link_target_set(t, b, LinkType::AllOffers) == link_target_set(
            s,
            b,
            LinkType::AllOffers,
        ),
    ensures
        forall|k: Seq<char>| #[trigger] lookup_key(t, k) == lookup_key(s, k),
{
    assert forall|k: Seq<char>| #[trigger] lookup_key(t, k) == lookup_key(s, k) by {
        match anchor_addr(s, k) {
            Some(b) => {
                assert(link_target_set(t, b as usize, LinkType::AllOffers) == link_target_set(
                    s,
                    b as usize,
                    LinkType::AllOffers,
                ));
            },
            None => {},
        }
    }
}

/// What hanging one index edge from an anchor does to every lookup: the
/// key anchored there gains the target, every other key sees no change.
pub proof fn lemma_lookup_after_link(s: Seq<ObjModel>, t: Seq<ObjModel>, b0: usize, tg: usize)
    requires
        s.len() <= usize::MAX,
        forall|k: Seq<char>| #[trigger] anchor_addr(t, k) == anchor_addr(s, k),
        link_target_set(t, b0, LinkType::AllOffers) == link_target_set(
            s,
            b0,
            LinkType::AllOffers,
        ).insert(tg),
        forall|b: usize, lt: LinkType| !(b == b0 && lt == LinkType::AllOffers) ==> #[trigger]
            link_target_set(t, b, lt) == link_target_set(s, b, lt),
    ensures
        forall|k: Seq<char>| anchor_addr(s, k) == Some(b0 as int) ==> #[trigger] lookup_key(t, k)
            == lookup_key(s, k).insert(tg),
        forall|k: Seq<char>| anchor_addr(s, k) != Some(b0 as int) ==> #[trigger] lookup_key(t, k)
            == lookup_key(s, k),
{
    assert forall|k: Seq<char>| anchor_addr(s, k) == Some(b0 as int) implies #[trigger]
        lookup_key(t, k) == lookup_key(s, k).insert(tg) by {}
    assert forall|k: Seq<char>| anchor_addr(s, k) != Some(b0 as int) implies #[trigger]
        lookup_key(t, k) == lookup_key(s, k) by {
        match anchor_addr(s, k) {
            Some(b) => {
                assert(!(b == b0 as int));
                let i = choose|i: int| first_at(s, ObjModel::Entry(EntryDataModel::Anchor(k)), i);
                assert(first_at(s, ObjModel::Entry(EntryDataModel::Anchor(k)), i));
                lemma_anchor_addr_is(s, k, i);
                assert(0 <= b < s.len());
                assert(b as usize != b0);
                assert(link_target_set(t, b as usize, LinkType::AllOffers) == link_target_set(
                    s,
                    b as usize,
                    LinkType::AllOffers,
                ));
            },
            None => {},
        }
    }
}

/// The first index holding a given content is unique, so `anchor_addr`
/// picks it.
proof fn lemma_first_at_unique_anchor(s: Seq<ObjModel>, o: ObjModel, i: int)
    requires
        first_at(s, o, i),
    ensures
        (if exists|j: int| first_at(s, o, j) {
            Some(choose|j: int| first_at(s, o, j))
        } else {
            None
        }) == Some(i),
{
    let j = choose|j: int| first_at(s, o, j);
    if j < i {
        assert(s[j] == o);
    }
    if i < j {
        assert(s[i] == o);
    }
}

/// Appending an object that is neither a create-link nor a delete-link
/// leaves every link set unchanged.
pub proof fn lemma_push_link_frame(s: Seq<ObjModel>, o: ObjModel)
    requires
        forall|j: usize| !is_delete_link_of(o, j),
    ensures
        forall|b: usize, lt: LinkType| !is_create_link_obj(o, b, lt) ==> #[trigger] link_pair_set(
            s.push(o),
            b,
            lt,
        ) == link_pair_set(s, b, lt),
        forall|b: usize, lt: LinkType| !is_create_link_obj(o, b, lt) ==> #[trigger]
            link_target_set(s.push(o), b, lt) == link_target_set(s, b, lt),
{
    let t = s.push(o);
    lemma_push_tombstones(s, o);
    assert forall|b: usize, lt: LinkType| !is_create_link_obj(o, b, lt) implies #[trigger]
        link_pair_set(t, b, lt) == link_pair_set(s, b, lt) by {
        assert forall|q: (i64, usize)| link_pair_set(t, b, lt).contains(q) == link_pair_set(
            s,
            b,
            lt,
        ).contains(q) by {
            if link_pair_set(s, b, lt).contains(q) {
                let j = choose|j: int| is_live_link(s, j, b, lt, q.1, q.0);
                assert(t[j] == s[j]);
                assert(is_live_link(t, j, b, lt, q.1, q.0));
            }
            if link_pair_set(t, b, lt).contains(q) {
                let j = choose|j: int| is_live_link(t, j, b, lt, q.1, q.0);
                if j < s.len() {
                    assert(t[j] == s[j]);
                    assert(is_live_link(s, j, b, lt, q.1, q.0));
                } else {
                    assert(t[j] == o);
                    assert(false);
                }
            }
        }
        assert(link_pair_set(t, b, lt) =~= link_pair_set(s, b, lt));
    }
    assert forall|b: usize, lt: LinkType| !is_create_link_obj(o, b, lt) implies #[trigger]
        link_target_set(t, b, lt) == link_target_set(s, b, lt) by {
        assert(link_target_set(t, b, lt) =~= link_target_set(s, b, lt));
    }
}

/// Appending a create-link action adds exactly its `(timestamp, target)`
/// pair to its own base's set and changes no other link set.
pub proof fn lemma_push_create_link(
    s: Seq<ObjModel>,
    n: usize,
    a: ActionModel,
    b0: usize,
    t0: usize,
    l0: LinkType,
    tag: Seq<u8>,
)
    requires
        s.len() == n,
        a.data == (ActionDataModel::CreateLink { base: b0, target: t0, link_type: l0, tag: tag }),
        forall|i: int| 0 <= i < s.len() ==> refs_ok(#[trigger] s[i], i),
    ensures
        link_pair_set(s.push(ObjModel::Act(a)), b0, l0) == link_pair_set(s, b0, l0).insert(
            (a.timestamp, t0),
        ),
        link_target_set(s.push(ObjModel::Act(a)), b0, l0) == link_target_set(s, b0, l0).insert(t0),
        forall|b: usize, lt: LinkType| !(b == b0 && lt == l0) ==> #[trigger] link_pair_set(
            s.push(ObjModel::Act(a)),
            b,
            lt,
        ) == link_pair_set(s, b, lt),
        forall|b: usize, lt: LinkType| !(b == b0 && lt == l0) ==> #[trigger] link_target_set(
            s.push(ObjModel::Act(a)),
            b,
            lt,
        ) == link_target_set(s, b, lt),
{
    let o = ObjModel::Act(a);
    let t = s.push(o);
    lemma_push_tombstones(s, o);
    assert(!link_tombstoned(s, n)) by {
        if link_tombstoned(s, n) {
            let i = choose|i: int| 0 <= i < s.len() && is_delete_link_of(s[i], n);
            assert(refs_ok(s[i], i));
        }
    }
    assert(is_live_link(t, s.len() as int, b0, l0, t0, a.timestamp)) by {
        assert(t[s.len() as int] == o);
    }
    assert forall|q: (i64, usize)| link_pair_set(t, b0, l0).contains(q) == link_pair_set(
        s,
        b0,
        l0,
    ).insert((a.timestamp, t0)).contains(q) by {
        if link_pair_set(s, b0, l0).contains(q) {
            let j = choose|j: int| is_live_link(s, j, b0, l0, q.1, q.0);
            assert(t[j] == s[j]);
            assert(is_live_link(t, j, b0, l0, q.1, q.0));
        }
        if q == (a.timestamp, t0) {
            assert(link_pair_set(t, b0, l0).contains(q));
        }
        if link_pair_set(t, b0, l0).contains(q) {
            let j = choose|j: int| is_live_link(t, j, b0, l0, q.1, q.0);
            if j < s.len() {
                assert(t[j] == s[j]);
                assert(is_live_link(s, j, b0, l0, q.1, q.0));
            } else {
                assert(t[j] == o);
                assert(q == (a.timestamp, t0));
            }
        }
    }
    assert(link_pair_set(t, b0, l0) =~= link_pair_set(s, b0, l0).insert((a.timestamp, t0)));
    assert forall|b: usize, lt: LinkType| !(b == b0 && lt == l0) implies #[trigger] link_pair_set(
        t,
        b,
        lt,
    ) == link_pair_set(s, b, lt) by {
        assert forall|q: (i64, usize)| link_pair_set(t, b, lt).contains(q) == link_pair_set(
            s,
            b,
            lt,
        ).contains(q) by {
            if link_pair_set(s, b, lt).contains(q) {
                let j = choose|j: int| is_live_link(s, j, b, lt, q.1, q.0);
                assert(t[j] == s[j]);
                assert(is_live_link(t, j, b, lt, q.1, q.0));
            }
            if link_pair_set(t, b, lt).contains(q) {
                let j = choose|j: int| is_live_link(t, j, b, lt, q.1, q.0);
                if j < s.len() {
                    assert(t[j] == s[j]);
                    assert(is_live_link(s, j, b, lt, q.1, q.0));
                } else {
                    assert(t[j] == o);
                    assert(false);
                }
            }
        }
        assert(link_pair_set(t, b, lt) =~= link_pair_set(s, b, lt));
    }
    assert forall|tg: usize| link_target_set(t, b0, l0).contains(tg) == link_target_set(
        s,
        b0,
        l0,
    ).insert(t0).contains(tg) by {
        if link_target_set(s, b0, l0).contains(tg) {
            let ts = choose|ts: i64| link_pair_set(s, b0, l0).contains((ts, tg));
            assert(link_pair_set(t, b0, l0).contains((ts, tg)));
        }
        if tg == t0 {
            assert(link_pair_set(t, b0, l0).contains((a.timestamp, t0)));
        }
        if link_target_set(t, b0, l0).contains(tg) {
            let ts = choose|ts: i64| link_pair_set(t, b0, l0).contains((ts, tg));
            if (ts, tg) != (a.timestamp, t0) {
                assert(link_pair_set(s, b0, l0).contains((ts, tg)));
            }
        }
    }
    assert(link_target_set(t, b0, l0) =~= link_target_set(s, b0, l0).insert(t0));
    assert forall|b: usize, lt: LinkType| !(b == b0 && lt == l0) implies #[trigger]
        link_target_set(t, b, lt) == link_target_set(s, b, lt) by {
        assert(link_target_set(t, b, lt) =~= link_target_set(s, b, lt));
    }
}

/// Appending an object that is not an anchor entry leaves every anchor
/// address unchanged.
pub proof fn lemma_push_anchor_frame(s: Seq<ObjModel>, o: ObjModel)
    requires
        !(o is Entry && o->Entry_0 is Anchor),
    ensures
        forall|k: Seq<char>| #[trigger] anchor_addr(s.push(o), k) == anchor_addr(s, k),
{
    let t = s.push(o);
    assert forall|k: Seq<char>| #[trigger] anchor_addr(t, k) == anchor_addr(s, k) by {
        let a = ObjModel::Entry(EntryDataModel::Anchor(k));
        if anchor_addr(s, k) is Some {
            let i = choose|i: int| first_at(s, a, i);
            assert(t[i] == s[i]);
            assert forall|j: int| 0 <= j < i implies t[j] != a by {
                assert(t[j] == s[j]);
            }
            assert(first_at(t, a, i));
            lemma_anchor_addr_is(t, k, i);
            lemma_anchor_addr_is(s, k, i);
        } else {
            if anchor_addr(t, k) is Some {
                let i = choose|i: int| first_at(t, a, i);
                if i < s.len() {
                    assert(t[i] == s[i]);
                    assert forall|j: int| 0 <= j < i implies s[j] != a by {
                        assert(t[j] == s[j]);
                    }
                    assert(first_at(s, a, i));
                } else {
                    assert(t[i] == o);
                }
                assert(false);
            }
        }
    }
}

/// When some index is the first holding the anchor for `k`, `anchor_addr`
/// returns exactly it.
pub proof fn lemma_anchor_addr_is(s: Seq<ObjModel>, k: Seq<char>, i: int)
    requires
        first_at(s, ObjModel::Entry(EntryDataModel::Anchor(k)), i),
    ensures
        anchor_addr(s, k) == Some(i),
{
    let a = ObjModel::Entry(EntryDataModel::Anchor(k));
    let j = choose|j: int| first_at(s, a, j);
    if j < i {
        assert(s[j] == a);
    }
    if i < j {
        assert(s[i] == a);
    }
}

/// Two distinct keys never share an anchor address.
pub proof fn lemma_anchor_addr_injective(s: Seq<ObjModel>, k1: Seq<char>, k2: Seq<char>)
    requires
        k1 != k2,
        anchor_addr(s, k1) is Some,
    ensures
        anchor_addr(s, k1) != anchor_addr(s, k2),
{
    let a1 = ObjModel::Entry(EntryDataModel::Anchor(k1));
    let a2 = ObjModel::Entry(EntryDataModel::Anchor(k2));
    let i = choose|i: int| first_at(s, a1, i);
    lemma_anchor_addr_is(s, k1, i);
    if anchor_addr(s, k2) == Some(i) {
        let j = choose|j: int| first_at(s, a2, j);
        lemma_anchor_addr_is(s, k2, j);
        assert(s[i] == a1);
        assert(s[j] == a2);
    }
}

impl Store {
    /// Commit a link edge after validating it. An update-chain link is
    /// admitted only between two record actions; an index link only
    /// between retrievable addresses. Nothing is written when the
    /// validator refuses.
    pub fn create_link(
        &mut self,
        author: u64,
        timestamp: i64,
        base: usize,
        target: usize,
        link_type: LinkType,
        tag: Vec<u8>,
    ) -> (r: Result<usize, StoreError>)
        requires
            wf_arena(old(self)@),
        ensures
            wf_arena(final(self)@),
            r is Ok <==> ((link_type == LinkType::AllOffers && base < old(self)@.len() && target
                < old(self)@.len()) || (link_type == LinkType::OfferUpdates && is_record_action(
                old(self)@,
                base,
            ) && is_record_action(old(self)@, target))),
            match r {
                Ok(h) => {
                    &&& h == old(self)@.len()
                    &&& final(self)@ == old(self)@.push(ObjModel::Act(ActionModel {
                        author: author,
                        seq: author_count(old(self)@, author) as usize,
                        timestamp: timestamp,
                        data: ActionDataModel::CreateLink {
                            base: base,
                            target: target,
                            link_type: link_type,
                            tag: tag@,
                        },
                    }))
                    &&& link_pair_set(final(self)@, base, link_type) == link_pair_set(
                        old(self)@,
                        base,
                        link_type,
                    ).insert((timestamp, target))
                    &&& link_target_set(final(self)@, base, link_type) == link_target_set(
                        old(self)@,
                        base,
                        link_type,
                    ).insert(target)
                    &&& forall|b2: usize, lt2: LinkType| !(b2 == base && lt2 == link_type)
                        ==> #[trigger] link_pair_set(final(self)@, b2, lt2) == link_pair_set(
                        old(self)@,
                        b2,
                        lt2,
                    )
                    &&& forall|b2: usize, lt2: LinkType| !(b2 == base && lt2 == link_type)
                        ==> #[trigger] link_target_set(final(self)@, b2, lt2) == link_target_set(
                        old(self)@,
                        b2,
                        lt2,
                    )
                    &&& forall|k2: Seq<char>| #[trigger] anchor_addr(final(self)@, k2)
                        == anchor_addr(old(self)@, k2)
                    &&& forall|x: usize| #[trigger] tombstoned(final(self)@, x) == tombstoned(
                        old(self)@,
                        x,
                    )
                    &&& forall|x: usize| #[trigger] record_at(final(self)@, x) == record_at(
                        old(self)@,
                        x,
                    )
                    &&& forall|x: usize| #[trigger] is_record_action(final(self)@, x)
                        == is_record_action(old(self)@, x)
                },
                Err(e) => final(self)@ == old(self)@ && match e {
                    StoreError::NotFound => (link_type == LinkType::OfferUpdates && (!is_action(
                        old(self)@,
                        base,
                    ) || (is_record_action(old(self)@, base) && !is_action(old(self)@, target))))
                        || (link_type == LinkType::AllOffers && (base >= old(self)@.len() || target
                        >= old(self)@.len())),
                    StoreError::ValidationRejected(m) => link_type == LinkType::OfferUpdates && m@
                        == link_requires_entry_reason(),
                },
            },
    {
        let n = self.len();
        match link_type {
            LinkType::OfferUpdates => {
                match validate_create_link_offer_updates(self, base, target) {
                    Err(e) => {
                        return Err(e);
                    },
                    Ok(ValidateCallbackResult::Invalid(m)) => {
                        return Err(StoreError::ValidationRejected(m));
                    },
                    Ok(ValidateCallbackResult::Valid) => {},
                }
            },
            LinkType::AllOffers => {
                if base >= n || target >= n {
                    return Err(StoreError::NotFound);
                }
            },
        }
        let seq = self.next_seq(author);
        let act = Action {
            author: author,
            seq: seq,
            timestamp: timestamp,
            data: ActionData::CreateLink { base: base, target: target, link_type: link_type, tag },
        };
        let ghost am = act@;
        let ghost pre = self@;
        proof {
            lemma_fresh_action_appends(pre, am);
            assert(obj_admissible(pre, ObjModel::Act(am)));
        }
        let h = self.put(Obj::Act(act));
        proof {
            assert(final(self)@ == pre.push(ObjModel::Act(am)));
            lemma_push_create_link(pre, n, am, base, target, link_type, am.data->CreateLink_tag);
            lemma_push_tombstones(pre, ObjModel::Act(am));
            lemma_push_record_frame(pre, ObjModel::Act(am));
            lemma_push_anchor_frame(pre, ObjModel::Act(am));
            assert forall|x: usize| #[trigger] record_at(self@, x) == record_at(pre, x) by {
                if x as int == pre.len() {
                    assert(!is_record_action(pre, x));
                    assert(!is_record_action(self@, x));
                }
            }
            assert forall|x: usize| #[trigger] is_record_action(self@, x) == is_record_action(
                pre,
                x,
            ) by {
                if x as int == pre.len() {
                    assert(!is_record_action(pre, x));
                    assert(!is_record_action(self@, x));
                }
            }
        }
        Ok(h)
    }

    /// Attempt to retract a link. Index links can be retracted; the
    /// validator rejects every attempt on an update-chain link, whoever
    /// authored it, so the update chain is append-only.
    pub fn delete_link(&mut self, author: u64, timestamp: i64, create_link_address: usize) -> (r:
        Result<usize, StoreError>)
        requires
            wf_arena(old(self)@),
        ensures
            wf_arena(final(self)@),
            match r {
                Ok(h) => {
                    &&& create_link_address < old(self)@.len()
                    &&& !is_update_chain_link(old(self)@[create_link_address as int])
                    &&& final(self)@ == old(self)@.push(ObjModel::Act(ActionModel {
                        author: author,
                        seq: author_count(old(self)@, author) as usize,
                        timestamp: timestamp,
                        data: ActionDataModel::DeleteLink { deletes: create_link_address },
                    }))
                    &&& link_tombstoned(final(self)@, create_link_address)
                    &&& forall|j: usize| j != create_link_address ==> #[trigger] link_tombstoned(
                        final(self)@,
                        j,
                    ) == link_tombstoned(old(self)@, j)
                    &&& forall|b2: usize| #[trigger] link_pair_set(
                        final(self)@,
                        b2,
                        LinkType::OfferUpdates,
                    ) == link_pair_set(old(self)@, b2, LinkType::OfferUpdates)
                    &&& forall|k2: Seq<char>| #[trigger] anchor_addr(final(self)@, k2)
                        == anchor_addr(old(self)@, k2)
                    &&& forall|x: usize| #[trigger] tombstoned(final(self)@, x) == tombstoned(
                        old(self)@,
                        x,
                    )
                    &&& forall|x: usize| #[trigger] record_at(final(self)@, x) == record_at(
                        old(self)@,
                        x,
                    )
                },
                Err(e) => final(self)@ == old(self)@ && match e {
                    StoreError::NotFound => !(exists|b: usize, lt: LinkType| is_create_link_obj(
                        #[trigger] obj_at(old(self)@, create_link_address),
                        b,
                        lt,
                    )),
                    StoreError::ValidationRejected(m) => create_link_address < old(self)@.len()
                        && is_update_chain_link(old(self)@[create_link_address as int]) && m@
                        == update_chain_immutable_reason(),
                },
            },
    {
        let kind = match self.get_obj(create_link_address) {
            Some(o) => o.link_kind(),
            None => None,
        };
        let (lt, b, t) = match kind {
            Some(p) => p,
            None => {
                return Err(StoreError::NotFound);
            },
        };
        match lt {
            LinkType::OfferUpdates => {
                match validate_delete_link_offer_updates(b, t) {
                    ValidateCallbackResult::Invalid(m) => {
                        return Err(StoreError::ValidationRejected(m));
                    },
                    ValidateCallbackResult::Valid => {
                        return Err(StoreError::NotFound);
                    },
                }
            },
            LinkType::AllOffers => {},
        }
        let seq = self.next_seq(author);
        let act = Action {
            author: author,
            seq: seq,
            timestamp: timestamp,
            data: ActionData::DeleteLink { deletes: create_link_address },
        };
        let ghost am = act@;
        let ghost pre = self@;
        proof {
            lemma_fresh_action_appends(pre, am);
            assert(obj_admissible(pre, ObjModel::Act(am)));
        }
        let h = self.put(Obj::Act(act));
        proof {
            assert(self@ == pre.push(ObjModel::Act(am)));
            lemma_push_tombstones(pre, ObjModel::Act(am));
            lemma_push_record_frame(pre, ObjModel::Act(am));
            lemma_push_anchor_frame(pre, ObjModel::Act(am));
            assert(is_delete_link_of(self@[pre.len() as int], create_link_address));
            assert(link_tombstoned(self@, create_link_address));
            lemma_push_delete_link_updates_frame(pre, ObjModel::Act(am), create_link_address);
        }
        Ok(h)
    }
}

/// The object at an address, for stating what an address holds (an
/// out-of-range address holds an action-free placeholder nothing matches).
pub open spec fn obj_at(s: Seq<ObjModel>, h: usize) -> ObjModel {
    if h < s.len() {
        s[h as int]
    } else {
        ObjModel::Entry(EntryDataModel::Anchor(Seq::<char>::empty()))
    }
}

/// Tombstoning a link that is not an update-chain link leaves every
/// update-chain link set unchanged.
pub proof fn lemma_push_delete_link_updates_frame(s: Seq<ObjModel>, o: ObjModel, dead: usize)
    requires
        s.len() <= usize::MAX,
        forall|j: usize| #[trigger] is_delete_link_of(o, j) ==> j == dead,
        forall|b: usize, lt: LinkType| !is_create_link_obj(o, b, lt),
        dead < s.len() ==> !is_update_chain_link(s[dead as int]),
    ensures
        forall|b: usize| #[trigger] link_pair_set(s.push(o), b, LinkType::OfferUpdates)
            == link_pair_set(s, b, LinkType::OfferUpdates),
{
    let t = s.push(o);
    lemma_push_tombstones(s, o);
    assert forall|b: usize| #[trigger] link_pair_set(t, b, LinkType::OfferUpdates)
        == link_pair_set(s, b, LinkType::OfferUpdates) by {
        let lt = LinkType::OfferUpdates;
        assert forall|q: (i64, usize)| link_pair_set(t, b, lt).contains(q) == link_pair_set(
            s,
            b,
            lt,
        ).contains(q) by {
            if link_pair_set(s, b, lt).contains(q) {
                let j = choose|j: int| is_live_link(s, j, b, lt, q.1, q.0);
                assert(t[j] == s[j]);
                assert(is_update_chain_link(s[j]));
                assert(j != dead);
                assert(!is_delete_link_of(o, j as usize));
                assert(is_live_link(t, j, b, lt, q.1, q.0));
            }
            if link_pair_set(t, b, lt).contains(q) {
                let j = choose|j: int| is_live_link(t, j, b, lt, q.1, q.0);
                if j < s.len() {
                    assert(t[j] == s[j]);
                    assert(is_live_link(s, j, b, lt, q.1, q.0));
                } else {
                    assert(t[j] == o);
                    assert(is_create_link_obj(o, b, lt));
                    assert(false);
                }
            }
        }
        assert(link_pair_set(t, b, lt) =~= link_pair_set(s, b, lt));
    }
}

} // verus!
