//! The offer operations exposed to the hosting call-dispatch layer:
//! create, read, update and delete a record, and the two index queries.
//!
//! A record's identity is the address of its originating create action;
//! that address never changes across updates. Deleting the original
//! retires the whole logical record: reads of it return nothing, and an
//! update against a retired record is refused (the chosen policy for the
//! update-versus-delete race, stated in `update_offer`'s contract).

use vstd::prelude::*;

use crate::data::{Action, ActionData, ActionDataModel, ActionModel, EntryData, EntryDataModel,
    LinkType, Obj, ObjModel, Offer, OfferModel, Record, StoreError};
use crate::data::clone_string;
use crate::links::{anchor_addr, composite_key, composite_key_model, lemma_anchor_addr_injective,
    lemma_lookup_after_link, lemma_lookup_from_frames, lemma_push_anchor_frame,
    lemma_push_link_frame, link_pair_set, link_target_set, lookup_all, lookup_key, root_key,
    root_key_string};
use crate::resolve::resolve_model;
use crate::store::{author_count, first_at, is_record_action, lemma_first_at_prefix,
    lemma_fresh_action_appends, lemma_prefix_trans, lemma_push_prefix, lemma_push_record_frame,
    lemma_push_tombstones, record_at, tombstoned, wf_arena, Store};
use crate::validate::{link_requires_entry_reason, validate_create_offer};

verus! {

/// The composite index key of an offer: its three category fields.
pub open spec fn offer_key(o: OfferModel) -> Seq<char> {
    composite_key_model(o.airport, o.offered_currency, o.requested_currency)
}

/// What a read of the record originated at `h` returns: nothing once the
/// original has been tombstoned, else the record at the resolved current
/// version.
pub open spec fn get_offer_model(s: Seq<ObjModel>, h: usize) -> Option<crate::data::RecordModel> {
    if tombstoned(s, h) {
        None
    } else {
        record_at(s, resolve_model(s, h))
    }
}

/// The reason given when an update targets a retired record.
pub open spec fn record_deleted_reason() -> Seq<char> {
    "Offer record has been deleted"@
}

/// Input of `update_offer`: the record's originating action address, the
/// address of the version being revised, and the new content.
#[derive(Debug, Clone, PartialEq, Eq)]
pub struct UpdateOfferInput {
    pub original_offer_hash: usize,
    pub previous_offer_hash: usize,
    pub updated_offer: Offer,
}

/// Input of `get_offers_for_currency_pair`: the composite category key.
#[derive(Debug, Clone, PartialEq, Eq)]
pub struct GetOffersForPairInput {
    pub airport: String,
    pub offered_currency: String,
    pub requested_currency: String,
}

impl Store {
    /// Create a record: commit the entry and its create action, then file
    /// the record under the well-known root key and under its composite
    /// category key. Every other key's lookup is untouched.
    pub fn create_offer(&mut self, author: u64, timestamp: i64, offer: Offer) -> (r: Record)
        requires
            wf_arena(old(self)@),
        ensures
            wf_arena(final(self)@),
            r@.offer == offer@,
            r@.action.author == author,
            r@.action.timestamp == timestamp,
            r@.action.data is CreateEntry,
            r@.action.data matches ActionDataModel::CreateEntry { entry } && first_at(
                final(self)@,
                ObjModel::Entry(EntryDataModel::OfferEntry(offer@)),
                entry as int,
            ),
            old(self)@.is_prefix_of(final(self)@),
            r.action_address < final(self)@.len(),
            is_record_action(final(self)@, r.action_address),
            !tombstoned(final(self)@, r.action_address),
            record_at(final(self)@, r.action_address) == Some(r@),
            lookup_all(final(self)@) == lookup_all(old(self)@).insert(r.action_address),
            lookup_key(final(self)@, offer_key(offer@)) == lookup_key(
                old(self)@,
                offer_key(offer@),
            ).insert(r.action_address),
            forall|k: Seq<char>| k != root_key() && k != offer_key(offer@) ==> #[trigger]
                lookup_key(final(self)@, k) == lookup_key(old(self)@, k),
            forall|b: usize| #[trigger] link_pair_set(final(self)@, b, LinkType::OfferUpdates)
                == link_pair_set(old(self)@, b, LinkType::OfferUpdates),
            forall|x: usize| #[trigger] tombstoned(final(self)@, x) == tombstoned(old(self)@, x),
            forall|x: usize| x != r.action_address ==> #[trigger] record_at(final(self)@, x)
                == record_at(old(self)@, x),
    {
        let ghost s0 = self@;
        let airport = clone_string(&offer.airport);
        let offered = clone_string(&offer.offered_currency);
        let requested = clone_string(&offer.requested_currency);
        let stored = offer.duplicate();
        let e = self.put(Obj::Entry(EntryData::OfferEntry(stored)));
        let ghost s1 = self@;
        proof {
            lemma_store_step_frames(s0, s1, Obj::Entry(EntryData::OfferEntry(offer))@, e);
        }
        let seq = self.next_seq(author);
        let act = Action {
            author: author,
            seq: seq,
            timestamp: timestamp,
            data: ActionData::CreateEntry { entry: e },
        };
        let record_action = act.duplicate();
        let _verdict = validate_create_offer(&record_action, &offer);
        let ghost am = act@;
        proof {
            lemma_fresh_action_appends(s1, am);
        }
        let a = self.put(Obj::Act(act));
        let ghost s2 = self@;
        proof {
            lemma_store_step_frames(s1, s2, ObjModel::Act(am), a);
            assert(is_record_action(s2, a)) by {
                assert(s2[a as int] == ObjModel::Act(am));
                assert(s2[e as int] == s1[e as int]);
            }
            assert(!tombstoned(s2, a)) by {
                assert(a as int == s1.len());
                if tombstoned(s1, a) {
                    let i = choose|i: int| 0 <= i < s1.len() && crate::store::is_delete_of(
                        s1[i],
                        a,
                    );
                    assert(crate::store::refs_ok(s1[i], i));
                }
            }
        }
        let root = root_key_string();
        let rb = self.ensure_anchor(root);
        let ghost s3 = self@;
        match self.create_link(author, timestamp, rb, a, LinkType::AllOffers, Vec::new()) {
            Ok(_) => {},
            Err(_) => {
                proof {
                    assert(false);
                }
            },
        }
        let ghost s4 = self@;
        proof {
            lemma_anchor_addr_injective_all(s3, root_key());
            lemma_lookup_after_link(s3, s4, rb, a);
        }
        let key = composite_key(&airport, &offered, &requested);
        let cb = self.ensure_anchor(key);
        let ghost s5 = self@;
        match self.create_link(author, timestamp, cb, a, LinkType::AllOffers, Vec::new()) {
            Ok(_) => {},
            Err(_) => {
                proof {
                    assert(false);
                }
            },
        }
        let ghost s6 = self@;
        proof {
            lemma_anchor_addr_injective_all(s5, offer_key(offer@));
            lemma_lookup_after_link(s5, s6, cb, a);
        }
        let r = Record { action_address: a, action: record_action, offer };
        proof {
            let ghost eo = ObjModel::Entry(EntryDataModel::OfferEntry(offer@));
            assert(s0.is_prefix_of(s1));
            assert(s1.is_prefix_of(s2));
            assert(s2.is_prefix_of(s3));
            assert(s3.is_prefix_of(s4)) by {
                lemma_push_prefix(s3, s4.last());
                assert(s4 =~= s3.push(s4.last()));
            }
            assert(s4.is_prefix_of(s5));
            assert(s5.is_prefix_of(s6)) by {
                lemma_push_prefix(s5, s6.last());
                assert(s6 =~= s5.push(s6.last()));
            }
            lemma_prefix_trans(s0, s1, s2);
            lemma_prefix_trans(s0, s2, s3);
            lemma_prefix_trans(s0, s3, s4);
            lemma_prefix_trans(s0, s4, s5);
            lemma_prefix_trans(s0, s5, s6);
            lemma_prefix_trans(s1, s2, s3);
            lemma_prefix_trans(s1, s3, s4);
            lemma_prefix_trans(s1, s4, s5);
            lemma_prefix_trans(s1, s5, s6);
            assert(first_at(s1, eo, e as int)) by {
                if crate::store::contains_obj(s0, eo) {
                    assert(s1 == s0);
                    assert(first_at(s0, eo, e as int));
                } else {
                    assert(s1 == s0.push(eo));
                    assert(e == s0.len());
                    assert(s1[e as int] == eo);
                    assert forall|j: int| 0 <= j < e implies s1[j] != eo by {
                        assert(s1[j] == s0[j]);
                    }
                }
            }
            lemma_first_at_prefix(s1, s6, eo, e as int);
            assert(r@.offer == offer@);
            assert(record_at(s6, a) == Some(r@)) by {
                assert(record_at(s2, a) == Some(r@)) by {
                    assert(s2[a as int] == ObjModel::Act(am));
                    assert(s2[e as int]->Entry_0->OfferEntry_0 =~= offer@);
                }
                assert(record_at(s3, a) == record_at(s2, a));
                assert(record_at(s4, a) == record_at(s3, a));
                assert(record_at(s5, a) == record_at(s4, a));
                assert(record_at(s6, a) == record_at(s5, a));
            }
            assert(lookup_all(s6) == lookup_all(s0).insert(a)) by {
                assert(anchor_addr(s3, root_key()) == Some(rb as int));
                assert(lookup_key(s4, root_key()) == lookup_key(s3, root_key()).insert(a));
                if root_key() == offer_key(offer@) {
                    assert(anchor_addr(s5, root_key()) == Some(cb as int));
                    assert(lookup_key(s6, root_key()) == lookup_key(s5, root_key()).insert(a));
                    assert(lookup_key(s6, root_key()) =~= lookup_key(s3, root_key()).insert(a));
                } else {
                    assert(anchor_addr(s5, root_key()) != Some(cb as int)) by {
                        lemma_anchor_addr_injective(s5, offer_key(offer@), root_key());
                    }
                    assert(lookup_key(s6, root_key()) == lookup_key(s5, root_key()));
                }
            }
            assert(lookup_key(s6, offer_key(offer@)) == lookup_key(s0, offer_key(offer@)).insert(
                a,
            )) by {
                assert(lookup_key(s6, offer_key(offer@)) == lookup_key(
                    s5,
                    offer_key(offer@),
                ).insert(a));
                if root_key() == offer_key(offer@) {
                    assert(lookup_key(s6, offer_key(offer@)) =~= lookup_key(
                        s0,
                        offer_key(offer@),
                    ).insert(a));
                } else {
                    assert(anchor_addr(s3, offer_key(offer@)) != Some(rb as int)) by {
                        lemma_anchor_addr_injective(s3, root_key(), offer_key(offer@));
                    }
                    assert(lookup_key(s4, offer_key(offer@)) == lookup_key(
                        s3,
                        offer_key(offer@),
                    ));
                }
            }
            assert forall|k: Seq<char>| k != root_key() && k != offer_key(offer@) implies
                #[trigger] lookup_key(s6, k) == lookup_key(s0, k) by {
                assert(lookup_key(s1, k) == lookup_key(s0, k));
                assert(lookup_key(s2, k) == lookup_key(s1, k));
                assert(lookup_key(s3, k) == lookup_key(s2, k));
                assert(anchor_addr(s3, k) != Some(rb as int)) by {
                    lemma_anchor_addr_injective(s3, root_key(), k);
                }
                assert(lookup_key(s4, k) == lookup_key(s3, k));
                assert(lookup_key(s5, k) == lookup_key(s4, k));
                assert(anchor_addr(s5, k) != Some(cb as int)) by {
                    lemma_anchor_addr_injective(s5, offer_key(offer@), k);
                }
                assert(lookup_key(s6, k) == lookup_key(s5, k));
            }
            assert forall|x: usize| #[trigger] tombstoned(s6, x) == tombstoned(s0, x) by {
                assert(tombstoned(s1, x) == tombstoned(s0, x));
                assert(tombstoned(s2, x) == tombstoned(s1, x));
                assert(tombstoned(s3, x) == tombstoned(s2, x));
                assert(tombstoned(s4, x) == tombstoned(s3, x));
                assert(tombstoned(s5, x) == tombstoned(s4, x));
                assert(tombstoned(s6, x) == tombstoned(s5, x));
            }
            assert forall|x: usize| x != a implies #[trigger] record_at(s6, x) == record_at(
                s0,
                x,
            ) by {
                assert(record_at(s1, x) == record_at(s0, x));
                assert(record_at(s2, x) == record_at(s1, x));
                assert(record_at(s3, x) == record_at(s2, x));
                assert(record_at(s4, x) == record_at(s3, x));
                assert(record_at(s5, x) == record_at(s4, x));
                assert(record_at(s6, x) == record_at(s5, x));
            }
            assert forall|b: usize| #[trigger] link_pair_set(s6, b, LinkType::OfferUpdates)
                == link_pair_set(s0, b, LinkType::OfferUpdates) by {
                assert(link_pair_set(s1, b, LinkType::OfferUpdates) == link_pair_set(
                    s0,
                    b,
                    LinkType::OfferUpdates,
                ));
                assert(link_pair_set(s2, b, LinkType::OfferUpdates) == link_pair_set(
                    s1,
                    b,
                    LinkType::OfferUpdates,
                ));
                assert(link_pair_set(s3, b, LinkType::OfferUpdates) == link_pair_set(
                    s2,
                    b,
                    LinkType::OfferUpdates,
                ));
                assert(link_pair_set(s4, b, LinkType::OfferUpdates) == link_pair_set(
                    s3,
                    b,
                    LinkType::OfferUpdates,
                ));
                assert(link_pair_set(s5, b, LinkType::OfferUpdates) == link_pair_set(
                    s4,
                    b,
                    LinkType::OfferUpdates,
                ));
                assert(link_pair_set(s6, b, LinkType::OfferUpdates) == link_pair_set(
                    s5,
                    b,
                    LinkType::OfferUpdates,
                ));
            }
        }
        r
    }

    /// Read a record by its originating action address: `None` once the
    /// record has been retired (tombstoned), else the record at its
    /// resolved current version.
    pub fn get_offer(&self, original_offer_hash: usize) -> (r: Option<Record>)
        ensures
            match r {
                Some(rec) => get_offer_model(self@, original_offer_hash) == Some(rec@),
                None => get_offer_model(self@, original_offer_hash) is None,
            },
    {
        if self.is_tombstoned(original_offer_hash) {
            return None;
        }
        let current = self.resolve(original_offer_hash);
        self.get_record(current)
    }

    /// Revise a record: commit the new entry and an update action against
    /// `previous_offer_hash`, then link the new version from the record's
    /// originating action. Nothing is written unless every check passes:
    /// the revised version must be a retrievable record action, the
    /// original must be a record action, and — the documented policy for
    /// the update-versus-delete race — the original must not have been
    /// deleted, else the update is refused.
    pub fn update_offer(&mut self, author: u64, timestamp: i64, input: UpdateOfferInput) -> (r:
        Result<Record, StoreError>)
        requires
            wf_arena(old(self)@),
        ensures
            wf_arena(final(self)@),
            r is Ok <==> (is_record_action(old(self)@, input.previous_offer_hash)
                && is_record_action(old(self)@, input.original_offer_hash) && !tombstoned(
                old(self)@,
                input.original_offer_hash,
            )),
            match r {
                Ok(rec) => {
                    &&& rec@.offer == input.updated_offer@
                    &&& rec@.action.author == author
                    &&& rec@.action.timestamp == timestamp
                    &&& rec@.action.data matches ActionDataModel::UpdateEntry {
                        entry,
                        revises,
                    } && revises == input.previous_offer_hash
                    &&& rec.action_address < final(self)@.len()
                    &&& old(self)@.is_prefix_of(final(self)@)
                    &&& record_at(final(self)@, rec.action_address) == Some(rec@)
                    &&& link_pair_set(
                        final(self)@,
                        input.original_offer_hash,
                        LinkType::OfferUpdates,
                    ) == link_pair_set(
                        old(self)@,
                        input.original_offer_hash,
                        LinkType::OfferUpdates,
                    ).insert((timestamp, rec.action_address))
                    &&& forall|b: usize| b != input.original_offer_hash ==> #[trigger]
                        link_pair_set(final(self)@, b, LinkType::OfferUpdates) == link_pair_set(
                        old(self)@,
                        b,
                        LinkType::OfferUpdates,
                    )
                    &&& forall|k: Seq<char>| #[trigger] lookup_key(final(self)@, k) == lookup_key(
                        old(self)@,
                        k,
                    )
                    &&& forall|x: usize| #[trigger] tombstoned(final(self)@, x) == tombstoned(
                        old(self)@,
                        x,
                    )
                    &&& forall|x: usize| x != rec.action_address ==> #[trigger] record_at(
                        final(self)@,
                        x,
                    ) == record_at(old(self)@, x)
                },
                Err(e) => final(self)@ == old(self)@ && match e {
                    StoreError::NotFound => !is_record_action(old(self)@, input.previous_offer_hash),
                    StoreError::ValidationRejected(m) => is_record_action(
                        old(self)@,
                        input.previous_offer_hash,
                    ) && (!is_record_action(old(self)@, input.original_offer_hash) && m@
                        == link_requires_entry_reason() || is_record_action(
                        old(self)@,
                        input.original_offer_hash,
                    ) && tombstoned(old(self)@, input.original_offer_hash) && m@
                        == record_deleted_reason()),
                },
            },
    {
        let original = input.original_offer_hash;
        let previous = input.previous_offer_hash;
        if !self.is_record_action_at(previous) {
            return Err(StoreError::NotFound);
        }
        if !self.is_record_action_at(original) {
            return Err(
                StoreError::ValidationRejected(
                    String::from_str("Linked action must reference an entry"),
                ),
            );
        }
        if self.is_tombstoned(original) {
            return Err(
                StoreError::ValidationRejected(String::from_str("Offer record has been deleted")),
            );
        }
        let ghost s0 = self@;
        let offer = input.updated_offer;
        let stored = offer.duplicate();
        let e = self.put(Obj::Entry(EntryData::OfferEntry(stored)));
        let ghost s1 = self@;
        proof {
            lemma_store_step_frames(s0, s1, Obj::Entry(EntryData::OfferEntry(offer))@, e);
        }
        let seq = self.next_seq(author);
        let act = Action {
            author: author,
            seq: seq,
            timestamp: timestamp,
            data: ActionData::UpdateEntry { entry: e, revises: previous },
        };
        let record_action = act.duplicate();
        let ghost am = act@;
        proof {
            lemma_fresh_action_appends(s1, am);
        }
        let a = self.put(Obj::Act(act));
        let ghost s2 = self@;
        proof {
            lemma_store_step_frames(s1, s2, ObjModel::Act(am), a);
            assert(is_record_action(s2, a)) by {
                assert(s2[a as int] == ObjModel::Act(am));
                assert(s2[e as int] == s1[e as int]);
            }
            assert(is_record_action(s2, original));
        }
        match self.create_link(author, timestamp, original, a, LinkType::OfferUpdates, Vec::new())
            {
            Ok(_) => {},
            Err(_) => {
                proof {
                    assert(false);
                }
            },
        }
        let ghost s3 = self@;
        proof {
            lemma_lookup_from_frames(s2, s3);
            assert(!tombstoned(s2, a)) by {
                assert(a as int == s1.len());
                if tombstoned(s1, a) {
                    let i = choose|i: int| 0 <= i < s1.len() && crate::store::is_delete_of(
                        s1[i],
                        a,
                    );
                    assert(crate::store::refs_ok(s1[i], i));
                }
            }
        }
        let rec = Record { action_address: a, action: record_action, offer };
        proof {
            assert(record_at(s3, a) == Some(rec@)) by {
                assert(record_at(s2, a) == Some(rec@)) by {
                    assert(s2[a as int] == ObjModel::Act(am));
                    assert(s2[e as int]->Entry_0->OfferEntry_0 =~= rec@.offer);
                }
            }
            assert(s0.is_prefix_of(s3)) by {
                assert(s0.is_prefix_of(s1));
                assert(s1.is_prefix_of(s2));
                assert(s2.is_prefix_of(s3)) by {
                    lemma_push_prefix(s2, s3.last());
                    assert(s3 =~= s2.push(s3.last()));
                }
                lemma_prefix_trans(s0, s1, s2);
                lemma_prefix_trans(s0, s2, s3);
            }
            assert forall|k: Seq<char>| #[trigger] lookup_key(s3, k) == lookup_key(s0, k) by {
                assert(lookup_key(s1, k) == lookup_key(s0, k));
                assert(lookup_key(s2, k) == lookup_key(s1, k));
            }
            assert forall|x: usize| #[trigger] tombstoned(s3, x) == tombstoned(s0, x) by {
                assert(tombstoned(s1, x) == tombstoned(s0, x));
                assert(tombstoned(s2, x) == tombstoned(s1, x));
            }
            assert forall|x: usize| x != a implies #[trigger] record_at(s3, x) == record_at(
                s0,
                x,
            ) by {
                assert(record_at(s1, x) == record_at(s0, x));
                assert(record_at(s2, x) == record_at(s1, x));
            }
            assert(link_pair_set(s3, original, LinkType::OfferUpdates) == link_pair_set(
                s0,
                original,
                LinkType::OfferUpdates,
            ).insert((timestamp, a))) by {
                assert(link_pair_set(s1, original, LinkType::OfferUpdates) == link_pair_set(
                    s0,
                    original,
                    LinkType::OfferUpdates,
                ));
                assert(link_pair_set(s2, original, LinkType::OfferUpdates) == link_pair_set(
                    s1,
                    original,
                    LinkType::OfferUpdates,
                ));
            }
            assert forall|b: usize| b != original implies #[trigger] link_pair_set(
                s3,
                b,
                LinkType::OfferUpdates,
            ) == link_pair_set(s0, b, LinkType::OfferUpdates) by {
                assert(link_pair_set(s1, b, LinkType::OfferUpdates) == link_pair_set(
                    s0,
                    b,
                    LinkType::OfferUpdates,
                ));
                assert(link_pair_set(s2, b, LinkType::OfferUpdates) == link_pair_set(
                    s1,
                    b,
                    LinkType::OfferUpdates,
                ));
            }
        }
        Ok(rec)
    }

    /// Retire a record by tombstoning its originating action. The record's
    /// bytes persist for audit, but reads of it return nothing from now
    /// on, and the indexes no longer hand it out.
    pub fn delete_offer(&mut self, author: u64, timestamp: i64, original_offer_hash: usize) -> (r:
        Result<usize, StoreError>)
        requires
            wf_arena(old(self)@),
        ensures
            wf_arena(final(self)@),
            r is Ok <==> is_record_action(old(self)@, original_offer_hash),
            match r {
                Ok(t) => {
                    &&& t == old(self)@.len()
                    &&& final(self)@ == old(self)@.push(ObjModel::Act(ActionModel {
                        author: author,
                        seq: author_count(old(self)@, author) as usize,
                        timestamp: timestamp,
                        data: ActionDataModel::DeleteEntry { deletes: original_offer_hash },
                    }))
                    &&& old(self)@.is_prefix_of(final(self)@)
                    &&& tombstoned(final(self)@, original_offer_hash)
                    &&& get_offer_model(final(self)@, original_offer_hash) is None
                    &&& record_at(final(self)@, original_offer_hash) is None
                    &&& forall|x: usize| x != original_offer_hash ==> #[trigger] tombstoned(
                        final(self)@,
                        x,
                    ) == tombstoned(old(self)@, x)
                    &&& forall|x: usize| x != original_offer_hash ==> #[trigger] record_at(
                        final(self)@,
                        x,
                    ) == record_at(old(self)@, x)
                    &&& forall|b: usize, lt: LinkType| #[trigger] link_pair_set(
                        final(self)@,
                        b,
                        lt,
                    ) == link_pair_set(old(self)@, b, lt)
                    &&& forall|k: Seq<char>| #[trigger] lookup_key(final(self)@, k) == lookup_key(
                        old(self)@,
                        k,
                    )
                },
                Err(e) => final(self)@ == old(self)@ && e == StoreError::NotFound,
            },
    {
        if !self.is_record_action_at(original_offer_hash) {
            return Err(StoreError::NotFound);
        }
        let ghost s0 = self@;
        let seq = self.next_seq(author);
        let act = Action {
            author: author,
            seq: seq,
            timestamp: timestamp,
            data: ActionData::DeleteEntry { deletes: original_offer_hash },
        };
        let ghost am = act@;
        proof {
            lemma_fresh_action_appends(s0, am);
        }
        let t = self.put(Obj::Act(act));
        let ghost s1 = self@;
        proof {
            assert(s1 == s0.push(ObjModel::Act(am)));
            lemma_push_prefix(s0, ObjModel::Act(am));
            assert(am =~= ActionModel {
                author: author,
                seq: author_count(s0, author) as usize,
                timestamp: timestamp,
                data: ActionDataModel::DeleteEntry { deletes: original_offer_hash },
            });
            lemma_push_tombstones(s0, ObjModel::Act(am));
            lemma_push_record_frame(s0, ObjModel::Act(am));
            lemma_push_link_frame(s0, ObjModel::Act(am));
            lemma_push_anchor_frame(s0, ObjModel::Act(am));
            lemma_lookup_from_frames(s0, s1);
            assert forall|x: usize| x != original_offer_hash implies #[trigger] record_at(s1, x)
                == record_at(s0, x) by {
                if x as int == s0.len() {
                    assert(!is_record_action(s0, x));
                    assert(!is_record_action(s1, x));
                }
            }
        }
        Ok(t)
    }

    /// Every record filed under the root key, resolved against tombstones:
    /// retired records are omitted, and entries come back in no guaranteed
    /// order. Each entry is the record's originating version, not its
    /// resolved current one; compose with `get_offer` for the latest.
    pub fn get_all_offers(&self) -> (r: Vec<Record>)
        ensures
            forall|i: int| 0 <= i < r@.len() ==> lookup_all(self@).contains(
                (#[trigger] r@[i]).action_address,
            ) && record_at(self@, r@[i].action_address) == Some(r@[i]@),
            forall|t: usize| lookup_all(self@).contains(t) && record_at(self@, t) is Some
                ==> exists|i: int| 0 <= i < r@.len() && (#[trigger] r@[i]).action_address == t,
            forall|i: int, j: int| 0 <= i < j < r@.len() ==> (#[trigger] r@[i]).action_address
                != (#[trigger] r@[j]).action_address,
    {
        let key = root_key_string();
        self.lookup_records(&key)
    }

    /// Every record filed under the composite category key of the given
    /// airport and currency pair, retired records omitted, in no
    /// guaranteed order.
    pub fn get_offers_for_currency_pair(&self, input: GetOffersForPairInput) -> (r: Vec<Record>)
        ensures
            forall|i: int| 0 <= i < r@.len() ==> lookup_key(
                self@,
                composite_key_model(
                    input.airport@,
                    input.offered_currency@,
                    input.requested_currency@,
                ),
            ).contains((#[trigger] r@[i]).action_address) && record_at(self@, r@[i].action_address)
                == Some(r@[i]@),
            forall|t: usize| lookup_key(
                self@,
                composite_key_model(
                    input.airport@,
                    input.offered_currency@,
                    input.requested_currency@,
                ),
            ).contains(t) && record_at(self@, t) is Some ==> exists|i: int| 0 <= i < r@.len() && (
            #[trigger] r@[i]).action_address == t,
            forall|i: int, j: int| 0 <= i < j < r@.len() ==> (#[trigger] r@[i]).action_address
                != (#[trigger] r@[j]).action_address,
    {
        let key = composite_key(
            &input.airport,
            &input.offered_currency,
            &input.requested_currency,
        );
        self.lookup_records(&key)
    }

    /// The records filed under one index key: fetch the anchor's live
    /// edges and keep every target that still retrieves a record, each
    /// record once however many edges point at it.
    #[verifier::loop_isolation(false)]
    fn lookup_records(&self, key: &String) -> (r: Vec<Record>)
        ensures
            forall|i: int| 0 <= i < r@.len() ==> lookup_key(self@, key@).contains(
                (#[trigger] r@[i]).action_address,
            ) && record_at(self@, r@[i].action_address) == Some(r@[i]@),
            forall|t: usize| lookup_key(self@, key@).contains(t) && record_at(self@, t) is Some
                ==> exists|i: int| 0 <= i < r@.len() && (#[trigger] r@[i]).action_address == t,
            forall|i: int, j: int| 0 <= i < j < r@.len() ==> (#[trigger] r@[i]).action_address
                != (#[trigger] r@[j]).action_address,
    {
        let mut r: Vec<Record> = Vec::new();
        let b = match self.find_anchor(key) {
            Some(b) => b,
            None => {
                return r;
            },
        };
        let links = self.get_links(b, LinkType::AllOffers);
        let ghost tset = lookup_key(self@, key@);
        proof {
            assert(tset == link_target_set(self@, b, LinkType::AllOffers));
        }
        let mut i: usize = 0;
        while i < links.len()
            invariant
                i <= links@.len(),
                forall|m: int| 0 <= m < r@.len() ==> tset.contains(
                    (#[trigger] r@[m]).action_address,
                ) && record_at(self@, r@[m].action_address) == Some(r@[m]@),
                forall|n: int| 0 <= n < i && record_at(self@, (#[trigger] links@[n])@.target)
                    is Some ==> exists|m: int| 0 <= m < r@.len() && (#[trigger] r@[m]).action_address
                    == links@[n]@.target,
                forall|m1: int, m2: int| 0 <= m1 < m2 < r@.len() ==> (#[trigger] r@[m1]).action_address
                    != (#[trigger] r@[m2]).action_address,
            decreases links@.len() - i,
        {
            let target = links[i].target;
            proof {
                assert(crate::links::good_link(self@, b, LinkType::AllOffers, links@[i as int]));
                let ghost ts = links@[i as int]@.timestamp;
                let ghost ca = links@[i as int]@.create_address as int;
                assert(crate::links::is_live_link(self@, ca, b, LinkType::AllOffers, target, ts));
                let ghost p = (ts, target);
                assert(p.0 == ts && p.1 == target);
                assert(exists|j: int| crate::links::is_live_link(
                    self@,
                    j,
                    b,
                    LinkType::AllOffers,
                    p.1,
                    p.0,
                ));
                assert(link_pair_set(self@, b, LinkType::AllOffers).contains(p));
                assert(tset.contains(target));
            }
            let ghost pre = r@;
            match self.get_record(target) {
                Some(rec) => {
                    if !contains_address(&r, target) {
                        r.push(rec);
                        proof {
                            assert(r@[r@.len() - 1].action_address == target);
                            assert(forall|m: int| 0 <= m < pre.len() ==> r@[m] == pre[m]);
                        }
                    }
                },
                None => {},
            }
            i = i + 1;
        }
        proof {
            assert forall|t: usize| tset.contains(t) && record_at(self@, t) is Some implies
                exists|m: int| 0 <= m < r@.len() && (#[trigger] r@[m]).action_address == t by {
                let ts = choose|ts: i64| link_pair_set(self@, b, LinkType::AllOffers).contains(
                    (ts, t),
                );
                let j = choose|j: int| crate::links::is_live_link(
                    self@,
                    j,
                    b,
                    LinkType::AllOffers,
                    t,
                    ts,
                );
                assert(crate::links::is_live_link_any(self@, j, b, LinkType::AllOffers));
                let n = choose|n: int| 0 <= n < links@.len() && (#[trigger] links@[n])@.create_address
                    == j;
                assert(crate::links::good_link(self@, b, LinkType::AllOffers, links@[n]));
                assert(links@[n]@.target == t);
            }
        }
        r
    }
}

/// Does some already-collected record carry this action address?
#[verifier::loop_isolation(false)]
fn contains_address(r: &Vec<Record>, t: usize) -> (b: bool)
    ensures
        b == exists|m: int| 0 <= m < r@.len() && (#[trigger] r@[m]).action_address == t,
{
    let mut m: usize = 0;
    while m < r.len()
        invariant
            m <= r@.len(),
            forall|n: int| 0 <= n < m ==> (#[trigger] r@[n]).action_address != t,
        decreases r@.len() - m,
    {
        if r[m].action_address == t {
            proof {
                assert(r@[m as int].action_address == t);
            }
            return true;
        }
        m = m + 1;
    }
    false
}

/// The anchor of key `k` (when it is materialized) never coincides with
/// any other key's anchor.
proof fn lemma_anchor_addr_injective_all(s: Seq<ObjModel>, k: Seq<char>)
    requires
        anchor_addr(s, k) is Some,
    ensures
        forall|k2: Seq<char>| k2 != k ==> #[trigger] anchor_addr(s, k2) != anchor_addr(s, k),
{
    assert forall|k2: Seq<char>| k2 != k implies #[trigger] anchor_addr(s, k2) != anchor_addr(
        s,
        k,
    ) by {
        lemma_anchor_addr_injective(s, k, k2);
    }
}

/// What one content store does to every query: nothing, when the stored
/// object is an entry (an offer's content or an anchor has no effect on
/// links, tombstones or other records), and nothing but its own address
/// when it is an action that is not a link or delete.
proof fn lemma_store_step_frames(s: Seq<ObjModel>, t: Seq<ObjModel>, o: ObjModel, h: usize)
    requires
        crate::store::put_post(s, t, o, h),
        forall|i: int| 0 <= i < s.len() ==> crate::store::refs_ok(#[trigger] s[i], i),
        forall|j: usize| !crate::store::is_delete_link_of(o, j),
        forall|h2: usize| !crate::store::is_delete_of(o, h2),
        forall|b: usize, lt: LinkType| !crate::data::is_create_link_obj(o, b, lt),
        !(o is Entry && o->Entry_0 is Anchor),
    ensures
        forall|b: usize, lt: LinkType| #[trigger] link_pair_set(t, b, lt) == link_pair_set(
            s,
            b,
            lt,
        ),
        forall|b: usize, lt: LinkType| #[trigger] link_target_set(t, b, lt) == link_target_set(
            s,
            b,
            lt,
        ),
        forall|k: Seq<char>| #[trigger] anchor_addr(t, k) == anchor_addr(s, k),
        forall|x: usize| #[trigger] tombstoned(t, x) == tombstoned(s, x),
        forall|x: usize| (x as int) != s.len() ==> #[trigger] record_at(t, x) == record_at(s, x),
        forall|k: Seq<char>| #[trigger] lookup_key(t, k) == lookup_key(s, k),
        forall|x: usize| (x as int) != s.len() ==> #[trigger] is_record_action(t, x)
            == is_record_action(s, x),
        o is Entry ==> forall|x: usize| #[trigger] record_at(t, x) == record_at(s, x),
        o is Entry ==> forall|x: usize| #[trigger] is_record_action(t, x) == is_record_action(
            s,
            x,
        ),
{
    if crate::store::contains_obj(s, o) {
        assert(t == s);
    } else {
        assert(t == s.push(o));
        lemma_push_tombstones(s, o);
        lemma_push_record_frame(s, o);
        lemma_push_link_frame(s, o);
        lemma_push_anchor_frame(s, o);
        lemma_lookup_from_frames(s, t);
        if o is Entry {
            assert forall|x: usize| #[trigger] record_at(t, x) == record_at(s, x) by {
                if x as int == s.len() {
                    assert(t[x as int] == o);
                    assert(!is_record_action(t, x));
                    assert(!is_record_action(s, x));
                }
            }
            assert forall|x: usize| #[trigger] is_record_action(t, x) == is_record_action(s, x)
                by {
                if x as int == s.len() {
                    assert(t[x as int] == o);
                    assert(!is_record_action(t, x));
                    assert(!is_record_action(s, x));
                }
            }
        }
    }
}

} // verus!
