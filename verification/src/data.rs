//! The content-addressed data model: entries, actions, links and records.
//!
//! Every stored object is immutable once written. An `Entry` carries record
//! content (or an index anchor), an `Action` is one authored state change,
//! and a `Record` pairs an action's address with the offer content it
//! committed. Addresses (`usize`) are the hashes of the local replica's
//! content-addressed arena: byte-identical objects share one address.

use vstd::prelude::*;

verus! {

/// Content payload of an offer record. The amount is a fixed-point decimal
/// held in millionths of a currency unit, so that exact equality (and with
/// it content addressing) is well defined.
#[derive(Debug, Clone, PartialEq, Eq)]
pub struct Offer {
    pub amount_micros: u64,
    pub offered_currency: String,
    pub requested_currency: String,
    pub available_from: i64,
    pub available_until: i64,
    pub airport: String,
}

/// Mathematical image of an `Offer`: strings become character sequences.
#[verifier::ext_equal]
pub ghost struct OfferModel {
    pub amount_micros: u64,
    pub offered_currency: Seq<char>,
    pub requested_currency: Seq<char>,
    pub available_from: i64,
    pub available_until: i64,
    pub airport: Seq<char>,
}

impl View for Offer {
    type V = OfferModel;

    open spec fn view(&self) -> OfferModel {
        OfferModel {
            amount_micros: self.amount_micros,
            offered_currency: self.offered_currency@,
            requested_currency: self.requested_currency@,
            available_from: self.available_from,
            available_until: self.available_until,
            airport: self.airport@,
        }
    }
}

impl Offer {
    /// Structural equality of offer content, the equality under which the
    /// arena deduplicates.
    pub fn equals(&self, other: &Offer) -> (r: bool)
        ensures
            r == (self@ == other@),
    {
        let r = self.amount_micros == other.amount_micros
            && self.offered_currency == other.offered_currency
            && self.requested_currency == other.requested_currency
            && self.available_from == other.available_from
            && self.available_until == other.available_until
            && self.airport == other.airport;
        proof {
            if r {
                assert(self@ =~= other@);
            }
        }
        r
    }

    /// A fresh value with the same content.
    pub fn duplicate(&self) -> (r: Offer)
        ensures
            r@ == self@,
    {
        let r = Offer {
            amount_micros: self.amount_micros,
            offered_currency: clone_string(&self.offered_currency),
            requested_currency: clone_string(&self.requested_currency),
            available_from: self.available_from,
            available_until: self.available_until,
            airport: clone_string(&self.airport),
        };
        proof {
            assert(r@ =~= self@);
        }
        r
    }
}

/// A copy of a string with the same characters.
pub fn clone_string(s: &String) -> (r: String)
    ensures
        r@ == s@,
{
    String::from_str(s.as_str())
}

/// An immutable entry: either the content of an offer record, or a path
/// anchor materialized for a hierarchical index key.
#[derive(Debug, Clone, PartialEq, Eq)]
pub enum EntryData {
    OfferEntry(Offer),
    Anchor(String),
}

#[verifier::ext_equal]
pub ghost enum EntryDataModel {
    OfferEntry(OfferModel),
    Anchor(Seq<char>),
}

impl View for EntryData {
    type V = EntryDataModel;

    open spec fn view(&self) -> EntryDataModel {
        match self {
            EntryData::OfferEntry(o) => EntryDataModel::OfferEntry(o@),
            EntryData::Anchor(k) => EntryDataModel::Anchor(k@),
        }
    }
}

impl EntryData {
    pub fn equals(&self, other: &EntryData) -> (r: bool)
        ensures
            r == (self@ == other@),
    {
        match (self, other) {
            (EntryData::OfferEntry(a), EntryData::OfferEntry(b)) => a.equals(b),
            (EntryData::Anchor(a), EntryData::Anchor(b)) => {
                let r = *a == *b;
                r
            },
            _ => false,
        }
    }
}

/// The kind of a link edge. Index edges (`AllOffers`) hang records from
/// path anchors; update-chain edges (`OfferUpdates`) point from a record's
/// originating action to each revision of it.
#[derive(Debug, Clone, Copy, PartialEq, Eq, Structural)]
pub enum LinkType {
    AllOffers,
    OfferUpdates,
}

/// The payload of one action: which state change it commits, with every
/// relationship expressed as an address into the arena.
#[derive(Debug, Clone, PartialEq, Eq)]
pub enum ActionData {
    /// Commits a new entry.
    CreateEntry { entry: usize },
    /// Commits a revised entry for the record whose prior version was
    /// committed by the action at `revises`.
    UpdateEntry { entry: usize, revises: usize },
    /// Tombstones the action at `deletes`: its bytes persist, but it is
    /// excluded from current queries.
    DeleteEntry { deletes: usize },
    /// Commits a link edge from `base` to `target`.
    CreateLink { base: usize, target: usize, link_type: LinkType, tag: Vec<u8> },
    /// Tombstones the create-link action at `deletes`.
    DeleteLink { deletes: usize },
}

#[verifier::ext_equal]
pub ghost enum ActionDataModel {
    CreateEntry { entry: usize },
    UpdateEntry { entry: usize, revises: usize },
    DeleteEntry { deletes: usize },
    CreateLink { base: usize, target: usize, link_type: LinkType, tag: Seq<u8> },
    DeleteLink { deletes: usize },
}

impl View for ActionData {
    type V = ActionDataModel;

    open spec fn view(&self) -> ActionDataModel {
        match self {
            ActionData::CreateEntry { entry } => ActionDataModel::CreateEntry { entry: *entry },
            ActionData::UpdateEntry { entry, revises } => ActionDataModel::UpdateEntry {
                entry: *entry,
                revises: *revises,
            },
            ActionData::DeleteEntry { deletes } => ActionDataModel::DeleteEntry {
                deletes: *deletes,
            },
            ActionData::CreateLink { base, target, link_type, tag } => (ActionDataModel::CreateLink {
                base: *base,
                target: *target,
                link_type: *link_type,
                tag: tag@,
            }),
            ActionData::DeleteLink { deletes } => ActionDataModel::DeleteLink {
                deletes: *deletes,
            },
        }
    }
}

/// Byte-sequence equality.
pub fn bytes_equal(a: &Vec<u8>, b: &Vec<u8>) -> (r: bool)
    ensures
        r == (a@ == b@),
{
    if a.len() != b.len() {
        return false;
    }
    let mut i: usize = 0;
    while i < a.len()
        invariant
            i <= a.len(),
            a.len() == b.len(),
            forall|j: int| 0 <= j < i ==> a@[j] == b@[j],
        decreases a.len() - i,
    {
        if a[i] != b[i] {
            return false;
        }
        i = i + 1;
    }
    proof {
        assert(a@ =~= b@);
    }
    true
}

/// A fresh byte vector with the same contents.
pub fn duplicate_bytes(a: &Vec<u8>) -> (r: Vec<u8>)
    ensures
        r@ == a@,
{
    let mut r: Vec<u8> = Vec::new();
    let mut i: usize = 0;
    while i < a.len()
        invariant
            i <= a.len(),
            r@ =~= a@.subrange(0, i as int),
        decreases a.len() - i,
    {
        r.push(a[i]);
        i = i + 1;
    }
    proof {
        assert(r@ =~= a@);
    }
    r
}

impl ActionData {
    pub fn equals(&self, other: &ActionData) -> (r: bool)
        ensures
            r == (self@ == other@),
    {
        match (self, other) {
            (ActionData::CreateEntry { entry: a }, ActionData::CreateEntry { entry: b }) => a == b,
            (
                ActionData::UpdateEntry { entry: a, revises: ra },
                ActionData::UpdateEntry { entry: b, revises: rb },
            ) => a == b && ra == rb,
            (ActionData::DeleteEntry { deletes: a }, ActionData::DeleteEntry { deletes: b }) => (a
                == b),
            (
                ActionData::CreateLink { base: ba, target: ta, link_type: la, tag: ga },
                ActionData::CreateLink { base: bb, target: tb, link_type: lb, tag: gb },
            ) => {
                let r = ba == bb && ta == tb && *la == *lb && bytes_equal(ga, gb);
                proof {
                    if r {
                        assert(self@ =~= other@);
                    }
                }
                r
            },
            (ActionData::DeleteLink { deletes: a }, ActionData::DeleteLink { deletes: b }) => (a
                == b),
            _ => false,
        }
    }

    pub fn duplicate(&self) -> (r: ActionData)
        ensures
            r@ == self@,
    {
        match self {
            ActionData::CreateEntry { entry } => ActionData::CreateEntry { entry: *entry },
            ActionData::UpdateEntry { entry, revises } => ActionData::UpdateEntry {
                entry: *entry,
                revises: *revises,
            },
            ActionData::DeleteEntry { deletes } => ActionData::DeleteEntry { deletes: *deletes },
            ActionData::CreateLink { base, target, link_type, tag } => (ActionData::CreateLink {
                base: *base,
                target: *target,
                link_type: *link_type,
                tag: duplicate_bytes(tag),
            }),
            ActionData::DeleteLink { deletes } => ActionData::DeleteLink { deletes: *deletes },
        }
    }
}

/// One authored, immutable state change: who wrote it, at which position of
/// the author's own chain, when, and what it commits.
#[derive(Debug, Clone, PartialEq, Eq)]
pub struct Action {
    pub author: u64,
    pub seq: usize,
    pub timestamp: i64,
    pub data: ActionData,
}

#[verifier::ext_equal]
pub ghost struct ActionModel {
    pub author: u64,
    pub seq: usize,
    pub timestamp: i64,
    pub data: ActionDataModel,
}

impl View for Action {
    type V = ActionModel;

    open spec fn view(&self) -> ActionModel {
        ActionModel {
            author: self.author,
            seq: self.seq,
            timestamp: self.timestamp,
            data: self.data@,
        }
    }
}

impl Action {
    pub fn equals(&self, other: &Action) -> (r: bool)
        ensures
            r == (self@ == other@),
    {
        let r = self.author == other.author && self.seq == other.seq && self.timestamp
            == other.timestamp && self.data.equals(&other.data);
        proof {
            if r {
                assert(self@ =~= other@);
            }
        }
        r
    }

    pub fn duplicate(&self) -> (r: Action)
        ensures
            r@ == self@,
    {
        let r = Action {
            author: self.author,
            seq: self.seq,
            timestamp: self.timestamp,
            data: self.data.duplicate(),
        };
        proof {
            assert(r@ =~= self@);
        }
        r
    }
}

/// One object of the content-addressed arena.
#[derive(Debug, Clone, PartialEq, Eq)]
pub enum Obj {
    Entry(EntryData),
    Act(Action),
}

#[verifier::ext_equal]
pub ghost enum ObjModel {
    Entry(EntryDataModel),
    Act(ActionModel),
}

impl View for Obj {
    type V = ObjModel;

    open spec fn view(&self) -> ObjModel {
        match self {
            Obj::Entry(e) => ObjModel::Entry(e@),
            Obj::Act(a) => ObjModel::Act(a@),
        }
    }
}

/// Is this object a create-link action with the given base and type?
pub open spec fn is_create_link_obj(o: ObjModel, base: usize, lt: LinkType) -> bool {
    match o {
        ObjModel::Act(a) => match a.data {
            ActionDataModel::CreateLink { base: b, target, link_type: l, tag } => b == base && l
                == lt,
            _ => false,
        },
        _ => false,
    }
}

impl Obj {
    /// If this object is a create-link action with the given base and
    /// type, hand back its target, timestamp, author and tag.
    pub fn as_link(&self, base: usize, lt: LinkType) -> (r: Option<(usize, i64, u64, Vec<u8>)>)
        ensures
            match r {
                Some(p) => self@ == (ObjModel::Act(ActionModel {
                    author: p.2,
                    seq: self@->Act_0.seq,
                    timestamp: p.1,
                    data: ActionDataModel::CreateLink {
                        base: base,
                        target: p.0,
                        link_type: lt,
                        tag: p.3@,
                    },
                })),
                None => !is_create_link_obj(self@, base, lt),
            },
    {
        match self {
            Obj::Act(a) => match &a.data {
                ActionData::CreateLink { base: b, target, link_type: l, tag } => {
                    if *b == base && *l == lt {
                        let r = (*target, a.timestamp, a.author, duplicate_bytes(tag));
                        proof {
                            assert(self@ =~= ObjModel::Act(ActionModel {
                                author: r.2,
                                seq: a.seq,
                                timestamp: r.1,
                                data: ActionDataModel::CreateLink {
                                    base: base,
                                    target: r.0,
                                    link_type: lt,
                                    tag: r.3@,
                                },
                            }));
                        }
                        Some(r)
                    } else {
                        None
                    }
                },
                _ => None,
            },
            _ => None,
        }
    }

    /// If this object is a create-link action (of any base and type),
    /// hand back its type, base and target.
    pub fn link_kind(&self) -> (r: Option<(LinkType, usize, usize)>)
        ensures
            match r {
                Some(p) => is_create_link_obj(self@, p.1, p.0) && (match self@->Act_0.data {
                    ActionDataModel::CreateLink { base, target, link_type, tag } => base == p.1
                        && target == p.2 && link_type == p.0,
                    _ => false,
                }),
                None => forall|b: usize, lt: LinkType| !is_create_link_obj(self@, b, lt),
            },
    {
        match self {
            Obj::Act(a) => match &a.data {
                ActionData::CreateLink { base, target, link_type, tag } => (Some(
                    (*link_type, *base, *target),
                )),
                _ => None,
            },
            _ => None,
        }
    }

    /// Is this object the anchor entry for the given key?
    pub fn is_anchor(&self, key: &String) -> (r: bool)
        ensures
            r == (self@ == ObjModel::Entry(EntryDataModel::Anchor(key@))),
    {
        match self {
            Obj::Entry(EntryData::Anchor(k)) => {
                let r = *k == *key;
                r
            },
            _ => false,
        }
    }

    pub fn equals(&self, other: &Obj) -> (r: bool)
        ensures
            r == (self@ == other@),
    {
        match (self, other) {
            (Obj::Entry(a), Obj::Entry(b)) => a.equals(b),
            (Obj::Act(a), Obj::Act(b)) => a.equals(b),
            _ => false,
        }
    }
}

/// A stored record as handed back to callers: the address of the action
/// that committed it, the action itself, and the offer content.
#[derive(Debug, Clone, PartialEq, Eq)]
pub struct Record {
    pub action_address: usize,
    pub action: Action,
    pub offer: Offer,
}

#[verifier::ext_equal]
pub ghost struct RecordModel {
    pub action_address: usize,
    pub action: ActionModel,
    pub offer: OfferModel,
}

impl View for Record {
    type V = RecordModel;

    open spec fn view(&self) -> RecordModel {
        RecordModel { action_address: self.action_address, action: self.action@, offer: self.offer@ }
    }
}

/// The validator's verdict on one pending write.
#[derive(Debug, Clone, PartialEq, Eq)]
pub enum ValidateCallbackResult {
    Valid,
    Invalid(String),
}

/// Failures surfaced by the store operations: a hash with no retrievable
/// data, or a write the validator refused (with its reason).
#[derive(Debug, Clone, PartialEq, Eq)]
pub enum StoreError {
    NotFound,
    ValidationRejected(String),
}

} // verus!
