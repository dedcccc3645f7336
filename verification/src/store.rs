//! The local replica: a content-addressed, append-only arena of immutable
//! objects.
//!
//! An object's address is assigned by the arena the first time its content
//! is stored; storing byte-identical content again returns the existing
//! address and changes nothing. Nothing is ever mutated or removed:
//! deletion is a tombstone action layered on top, and an object stays
//! retrievable (for audit) after it is tombstoned, while tombstoned actions
//! are excluded from current queries.

use vstd::prelude::*;

use crate::data::{ActionDataModel, ActionModel, EntryData, Obj, ObjModel, Record, RecordModel};

verus! {

/// Does the arena hold an object of this content?
pub open spec fn contains_obj(s: Seq<ObjModel>, o: ObjModel) -> bool {
    exists|i: int| 0 <= i < s.len() && s[i] == o
}

/// `i` is the address of content `o`: the first index holding it.
pub open spec fn first_at(s: Seq<ObjModel>, o: ObjModel, i: int) -> bool {
    &&& 0 <= i < s.len()
    &&& s[i] == o
    &&& forall|j: int| 0 <= j < i ==> s[j] != o
}

/// What one store of content `o` does to the arena `pre`: either the
/// content is already present and nothing changes (its address `h` is the
/// first index holding it), or it is appended at the end.
pub open spec fn put_post(pre: Seq<ObjModel>, post: Seq<ObjModel>, o: ObjModel, h: usize) -> bool {
    if contains_obj(pre, o) {
        post == pre && first_at(pre, o, h as int)
    } else {
        post == pre.push(o) && h == pre.len()
    }
}

/// Is the action at address `h` tombstoned, that is, does some delete
/// action target it?
pub open spec fn tombstoned(s: Seq<ObjModel>, h: usize) -> bool {
    exists|i: int| 0 <= i < s.len() && is_delete_of(s[i], h)
}

pub open spec fn is_delete_of(o: ObjModel, h: usize) -> bool {
    match o {
        ObjModel::Act(a) => match a.data {
            ActionDataModel::DeleteEntry { deletes } => deletes == h,
            _ => false,
        },
        _ => false,
    }
}

/// Is the create-link action at address `j` tombstoned by some
/// delete-link action?
pub open spec fn link_tombstoned(s: Seq<ObjModel>, j: usize) -> bool {
    exists|i: int| 0 <= i < s.len() && is_delete_link_of(s[i], j)
}

pub open spec fn is_delete_link_of(o: ObjModel, j: usize) -> bool {
    match o {
        ObjModel::Act(a) => match a.data {
            ActionDataModel::DeleteLink { deletes } => deletes == j,
            _ => false,
        },
        _ => false,
    }
}

/// Is `h` the address of a retrievable action?
pub open spec fn is_action(s: Seq<ObjModel>, h: usize) -> bool {
    h < s.len() && s[h as int] is Act
}

/// The entry address an action commits, if it commits one.
pub open spec fn committed_entry(d: ActionDataModel) -> Option<usize> {
    match d {
        ActionDataModel::CreateEntry { entry } => Some(entry),
        ActionDataModel::UpdateEntry { entry, revises } => Some(entry),
        _ => None,
    }
}

/// Is `h` the address of a record action: an action whose committed entry
/// is retrievable and decodes as offer content? Tombstoned actions still
/// qualify (they remain valid link targets for audit).
pub open spec fn is_record_action(s: Seq<ObjModel>, h: usize) -> bool {
    is_action(s, h) && match s[h as int] {
        ObjModel::Act(a) => match committed_entry(a.data) {
            Some(e) => e < s.len() && s[e as int] is Entry && (s[e as int]->Entry_0
                is OfferEntry),
            None => false,
        },
        _ => false,
    }
}

/// The record committed at address `h`, for current queries: `None` if `h`
/// is not a record action or has been tombstoned.
pub open spec fn record_at(s: Seq<ObjModel>, h: usize) -> Option<RecordModel> {
    if is_record_action(s, h) && !tombstoned(s, h) {
        let a = s[h as int]->Act_0;
        let e = committed_entry(a.data)->Some_0;
        Some(RecordModel { action_address: h, action: a, offer: s[e as int]->Entry_0->OfferEntry_0 })
    } else {
        None
    }
}

/// How many actions of this author the arena holds: the author's next
/// chain sequence number.
pub open spec fn author_count(s: Seq<ObjModel>, author: u64) -> nat
    decreases s.len(),
{
    if s.len() == 0 {
        0
    } else {
        author_count(s.drop_last(), author) + if is_action_by(s.last(), author) {
            1nat
        } else {
            0nat
        }
    }
}

pub open spec fn is_action_by(o: ObjModel, author: u64) -> bool {
    o is Act && o->Act_0.author == author
}

/// Does every address this object mentions point strictly before `n`?
/// Content addressing makes a reference to a not-yet-seen hash impossible,
/// so every stored object references only causally prior objects.
pub open spec fn refs_ok(o: ObjModel, n: int) -> bool {
    match o {
        ObjModel::Entry(e) => true,
        ObjModel::Act(a) => match a.data {
            ActionDataModel::CreateEntry { entry } => entry < n,
            ActionDataModel::UpdateEntry { entry, revises } => entry < n && revises < n,
            ActionDataModel::DeleteEntry { deletes } => deletes < n,
            ActionDataModel::CreateLink { base, target, link_type, tag } => base < n && target < n,
            ActionDataModel::DeleteLink { deletes } => deletes < n,
        },
    }
}

/// Is this object a create-link action of the update-chain type?
pub open spec fn is_update_chain_link(o: ObjModel) -> bool {
    match o {
        ObjModel::Act(a) => match a.data {
            ActionDataModel::CreateLink { base, target, link_type, tag } => link_type
                == crate::data::LinkType::OfferUpdates,
            _ => false,
        },
        _ => false,
    }
}

/// Well-formedness of a replica's arena, established by the constructor
/// and preserved by every operation:
/// - every object references only strictly earlier addresses;
/// - every action's sequence number is its author's action count at the
///   time it was committed (the author's chain is append-only);
/// - no delete-link ever targets an update-chain link: the update chain
///   is a permanent, append-only provenance trail.
pub open spec fn wf_arena(s: Seq<ObjModel>) -> bool {
    &&& forall|i: int| 0 <= i < s.len() ==> refs_ok(#[trigger] s[i], i)
    &&& forall|i: int| 0 <= i < s.len() && #[trigger] s[i] is Act ==> s[i]->Act_0.seq
        == author_count(s.subrange(0, i), s[i]->Act_0.author)
    &&& forall|i: int, j: usize| 0 <= i < s.len() && #[trigger] is_delete_link_of(s[i], j) ==> j
        < s.len() && !is_update_chain_link(s[j as int])
}

/// May this object be appended to arena `s` without breaking
/// well-formedness?
pub open spec fn obj_admissible(s: Seq<ObjModel>, o: ObjModel) -> bool {
    &&& refs_ok(o, s.len() as int)
    &&& (o is Act ==> o->Act_0.seq == author_count(s, o->Act_0.author))
    &&& forall|j: usize| #[trigger] is_delete_link_of(o, j) ==> j < s.len()
        && !is_update_chain_link(s[j as int])
}

/// The local replica's arena of hash-addressed immutable objects.
pub struct Store {
    objs: Vec<Obj>,
}

impl View for Store {
    type V = Seq<ObjModel>;

    closed spec fn view(&self) -> Seq<ObjModel> {
        self.objs@.map_values(|o: Obj| o@)
    }
}

impl Store {
    /// An empty replica.
    pub fn new() -> (s: Store)
        ensures
            s@ == Seq::<ObjModel>::empty(),
            wf_arena(s@),
    {
        let s = Store { objs: Vec::new() };
        proof {
            assert(s@ =~= Seq::<ObjModel>::empty());
        }
        s
    }

    pub fn len(&self) -> (n: usize)
        ensures
            n == self@.len(),
    {
        self.objs.len()
    }

    /// Store content and return its address. Content addressing makes this
    /// idempotent: byte-identical content stored twice yields one object.
    #[verifier::loop_isolation(false)]
    pub(crate) fn put(&mut self, obj: Obj) -> (h: usize)
        requires
            wf_arena(old(self)@),
            obj_admissible(old(self)@, obj@),
        ensures
            put_post(old(self)@, final(self)@, obj@, h),
            final(self)@.len() <= old(self)@.len() + 1,
            h < final(self)@.len(),
            final(self)@[h as int] == obj@,
            old(self)@.is_prefix_of(final(self)@),
            wf_arena(final(self)@),
    {
        let ghost pre = self@;
        let mut i: usize = 0;
        while i < self.objs.len()
            invariant
                self@ == pre,
                i <= self.objs.len(),
                forall|j: int| 0 <= j < i ==> pre[j] != obj@,
            decreases self.objs.len() - i,
        {
            if self.objs[i].equals(&obj) {
                proof {
                    assert(pre[i as int] == obj@);
                    assert(first_at(pre, obj@, i as int));
                    assert(pre.is_prefix_of(pre));
                }
                return i;
            }
            i = i + 1;
        }
        proof {
            assert(forall|j: int| 0 <= j < pre.len() ==> pre[j] != obj@);
            assert(!contains_obj(pre, obj@));
        }
        let h = self.objs.len();
        proof {
            lemma_push_wf(pre, obj@);
        }
        self.objs.push(obj);
        proof {
            assert(self@ =~= pre.push(obj@));
        }
        h
    }

    /// Retrieve the object at an address, tombstoned or not.
    pub fn get_obj(&self, h: usize) -> (r: Option<&Obj>)
        ensures
            match r {
                Some(o) => h < self@.len() && o@ == self@[h as int],
                None => h >= self@.len(),
            },
    {
        if h < self.objs.len() {
            Some(&self.objs[h])
        } else {
            None
        }
    }

    /// Is the action at `h` tombstoned by some delete action?
    pub fn is_tombstoned(&self, h: usize) -> (r: bool)
        ensures
            r == tombstoned(self@, h),
    {
        let mut i: usize = 0;
        while i < self.objs.len()
            invariant
                i <= self@.len(),
                forall|j: int| 0 <= j < i ==> !is_delete_of(self@[j], h),
            decreases self@.len() - i,
        {
            let is_del = match &self.objs[i] {
                Obj::Act(a) => match &a.data {
                    crate::data::ActionData::DeleteEntry { deletes } => *deletes == h,
                    _ => false,
                },
                _ => false,
            };
            if is_del {
                proof {
                    assert(is_delete_of(self@[i as int], h));
                }
                return true;
            }
            i = i + 1;
        }
        false
    }

    /// Is the create-link action at `j` tombstoned by some delete-link
    /// action?
    pub fn is_link_tombstoned(&self, j: usize) -> (r: bool)
        ensures
            r == link_tombstoned(self@, j),
    {
        let mut i: usize = 0;
        while i < self.objs.len()
            invariant
                i <= self@.len(),
                forall|k: int| 0 <= k < i ==> !is_delete_link_of(self@[k], j),
            decreases self@.len() - i,
        {
            let is_del = match &self.objs[i] {
                Obj::Act(a) => match &a.data {
                    crate::data::ActionData::DeleteLink { deletes } => *deletes == j,
                    _ => false,
                },
                _ => false,
            };
            if is_del {
                proof {
                    assert(is_delete_link_of(self@[i as int], j));
                }
                return true;
            }
            i = i + 1;
        }
        false
    }

    /// Is `h` the address of a retrievable action?
    pub fn is_action_at(&self, h: usize) -> (r: bool)
        ensures
            r == is_action(self@, h),
    {
        if h >= self.objs.len() {
            return false;
        }
        match &self.objs[h] {
            Obj::Act(_) => true,
            Obj::Entry(_) => false,
        }
    }

    /// Is `h` the address of a record action (an action whose committed
    /// entry decodes as offer content)?
    pub fn is_record_action_at(&self, h: usize) -> (r: bool)
        ensures
            r == is_record_action(self@, h),
    {
        if h >= self.objs.len() {
            return false;
        }
        let a = match &self.objs[h] {
            Obj::Act(a) => a,
            Obj::Entry(_) => {
                return false;
            },
        };
        let e = match &a.data {
            crate::data::ActionData::CreateEntry { entry } => *entry,
            crate::data::ActionData::UpdateEntry { entry, revises } => *entry,
            _ => {
                return false;
            },
        };
        if e >= self.objs.len() {
            return false;
        }
        match &self.objs[e] {
            Obj::Entry(EntryData::OfferEntry(_)) => true,
            _ => false,
        }
    }

    /// Fetch the current record committed at `h`: `None` if `h` does not
    /// hold a record action or the action has been tombstoned.
    pub fn get_record(&self, h: usize) -> (r: Option<Record>)
        ensures
            match r {
                Some(rec) => record_at(self@, h) == Some(rec@),
                None => record_at(self@, h) is None,
            },
    {
        if !self.is_record_action_at(h) {
            return None;
        }
        if self.is_tombstoned(h) {
            return None;
        }
        let a = match &self.objs[h] {
            Obj::Act(a) => a,
            Obj::Entry(_) => {
                return None;
            },
        };
        let e = match &a.data {
            crate::data::ActionData::CreateEntry { entry } => *entry,
            crate::data::ActionData::UpdateEntry { entry, revises } => *entry,
            _ => {
                return None;
            },
        };
        let offer = match &self.objs[e] {
            Obj::Entry(EntryData::OfferEntry(o)) => o.duplicate(),
            _ => {
                return None;
            },
        };
        let rec = Record { action_address: h, action: a.duplicate(), offer };
        proof {
            assert(record_at(self@, h) == Some(rec@));
        }
        Some(rec)
    }

    /// The author's next chain sequence number: how many actions of that
    /// author the replica holds.
    pub fn next_seq(&self, author: u64) -> (n: usize)
        ensures
            n == author_count(self@, author),
    {
        let mut i: usize = 0;
        let mut n: usize = 0;
        while i < self.objs.len()
            invariant
                i <= self@.len(),
                n <= i,
                n == author_count(self@.subrange(0, i as int), author),
            decreases self@.len() - i,
        {
            let by = match &self.objs[i] {
                Obj::Act(a) => a.author == author,
                _ => false,
            };
            proof {
                assert(self@.subrange(0, i + 1).drop_last() =~= self@.subrange(0, i as int));
                assert(self@.subrange(0, i + 1).last() == self@[i as int]);
            }
            if by {
                n = n + 1;
            }
            i = i + 1;
        }
        proof {
            assert(self@.subrange(0, self@.len() as int) =~= self@);
        }
        n
    }
}

/// Appending an admissible object preserves well-formedness.
pub proof fn lemma_push_wf(s: Seq<ObjModel>, o: ObjModel)
    requires
        wf_arena(s),
        obj_admissible(s, o),
    ensures
        wf_arena(s.push(o)),
{
    let t = s.push(o);
    assert forall|i: int| 0 <= i < t.len() implies refs_ok(#[trigger] t[i], i) by {
        if i < s.len() {
            assert(t[i] == s[i]);
        } else {
            assert(t[i] == o);
        }
    }
    assert forall|i: int| 0 <= i < t.len() && #[trigger] t[i] is Act implies t[i]->Act_0.seq
        == author_count(t.subrange(0, i), t[i]->Act_0.author) by {
        if i < s.len() {
            assert(t[i] == s[i]);
            assert(t.subrange(0, i) =~= s.subrange(0, i));
        } else {
            assert(t[i] == o);
            assert(t.subrange(0, i) =~= s);
        }
    }
    assert forall|i: int, j: usize| 0 <= i < t.len() && #[trigger] is_delete_link_of(t[i], j)
        implies j < t.len() && !is_update_chain_link(t[j as int]) by {
        if i < s.len() {
            assert(t[i] == s[i]);
            assert(j < s.len() && !is_update_chain_link(s[j as int]));
            assert(t[j as int] == s[j as int]);
        } else {
            assert(t[i] == o);
            assert(j < s.len() && !is_update_chain_link(s[j as int]));
            assert(t[j as int] == s[j as int]);
        }
    }
}

/// An action whose sequence number is its author's current count has
/// never been stored: a fresh action always appends.
pub proof fn lemma_fresh_action_appends(s: Seq<ObjModel>, a: ActionModel)
    requires
        wf_arena(s),
        a.seq == author_count(s, a.author),
    ensures
        !contains_obj(s, ObjModel::Act(a)),
{
    if contains_obj(s, ObjModel::Act(a)) {
        let j = choose|j: int| 0 <= j < s.len() && s[j] == ObjModel::Act(a);
        assert(s[j] is Act);
        assert(a.seq == author_count(s.subrange(0, j), a.author));
        assert(s.subrange(0, j + 1).drop_last() =~= s.subrange(0, j));
        assert(s.subrange(0, j + 1).last() == s[j]);
        assert(is_action_by(s[j], a.author));
        assert(author_count(s.subrange(0, j + 1), a.author) == a.seq + 1);
        lemma_author_count_monotone(s, j + 1, a.author);
        assert(false);
    }
}

/// What one append does to the tombstone predicates.
pub proof fn lemma_push_tombstones(s: Seq<ObjModel>, o: ObjModel)
    ensures
        forall|h: usize| #[trigger] tombstoned(s.push(o), h) == (tombstoned(s, h) || is_delete_of(
            o,
            h,
        )),
        forall|j: usize| #[trigger] link_tombstoned(s.push(o), j) == (link_tombstoned(s, j)
            || is_delete_link_of(o, j)),
{
    let t = s.push(o);
    assert forall|h: usize| #[trigger] tombstoned(t, h) == (tombstoned(s, h) || is_delete_of(o, h))
        by {
        if tombstoned(s, h) {
            let i = choose|i: int| 0 <= i < s.len() && is_delete_of(s[i], h);
            assert(t[i] == s[i]);
            assert(tombstoned(t, h));
        }
        if is_delete_of(o, h) {
            assert(t[s.len() as int] == o);
            assert(tombstoned(t, h));
        }
        if tombstoned(t, h) {
            let i = choose|i: int| 0 <= i < t.len() && is_delete_of(t[i], h);
            if i < s.len() {
                assert(s[i] == t[i]);
                assert(tombstoned(s, h));
            } else {
                assert(t[i] == o);
            }
        }
    }
    assert forall|j: usize| #[trigger] link_tombstoned(t, j) == (link_tombstoned(s, j)
        || is_delete_link_of(o, j)) by {
        if link_tombstoned(s, j) {
            let i = choose|i: int| 0 <= i < s.len() && is_delete_link_of(s[i], j);
            assert(t[i] == s[i]);
            assert(link_tombstoned(t, j));
        }
        if is_delete_link_of(o, j) {
            assert(t[s.len() as int] == o);
            assert(link_tombstoned(t, j));
        }
        if link_tombstoned(t, j) {
            let i = choose|i: int| 0 <= i < t.len() && is_delete_link_of(t[i], j);
            if i < s.len() {
                assert(s[i] == t[i]);
                assert(link_tombstoned(s, j));
            } else {
                assert(t[i] == o);
            }
        }
    }
}

/// What one append does to record retrieval at every other address.
pub proof fn lemma_push_record_frame(s: Seq<ObjModel>, o: ObjModel)
    requires
        forall|i: int| 0 <= i < s.len() ==> refs_ok(#[trigger] s[i], i),
    ensures
        forall|x: usize| (x as int) != s.len() ==> #[trigger] is_record_action(s.push(o), x)
            == is_record_action(s, x),
        forall|x: usize| (x as int) != s.len() && !is_delete_of(o, x) ==> #[trigger] record_at(
            s.push(o),
            x,
        ) == record_at(s, x),
        forall|x: usize| is_delete_of(o, x) ==> #[trigger] record_at(s.push(o), x) is None,
{
    let t = s.push(o);
    lemma_push_tombstones(s, o);
    assert forall|x: usize| (x as int) != s.len() implies #[trigger] is_record_action(t, x)
        == is_record_action(s, x) by {
        if x < s.len() {
            assert(t[x as int] == s[x as int]);
            assert(refs_ok(s[x as int], x as int));
        }
    }
    assert forall|x: usize| (x as int) != s.len() && !is_delete_of(o, x) implies #[trigger]
        record_at(t, x) == record_at(s, x) by {
        if x < s.len() {
            assert(t[x as int] == s[x as int]);
            assert(refs_ok(s[x as int], x as int));
            if is_record_action(s, x) && !tombstoned(s, x) {
                let a = s[x as int]->Act_0;
                let e = committed_entry(a.data)->Some_0;
                assert(t[e as int] == s[e as int]);
            }
        }
    }
    assert forall|x: usize| is_delete_of(o, x) implies #[trigger] record_at(t, x) is None by {
        assert(t[s.len() as int] == o);
        assert(tombstoned(t, x));
    }
}

/// Appending leaves the old arena a prefix of the new.
pub proof fn lemma_push_prefix(s: Seq<ObjModel>, o: ObjModel)
    ensures
        s.is_prefix_of(s.push(o)),
{
    assert(s.push(o).subrange(0, s.len() as int) =~= s);
}

/// Being a prefix is transitive.
pub proof fn lemma_prefix_trans(a: Seq<ObjModel>, b: Seq<ObjModel>, c: Seq<ObjModel>)
    requires
        a.is_prefix_of(b),
        b.is_prefix_of(c),
    ensures
        a.is_prefix_of(c),
{
    assert forall|j: int| 0 <= j < a.len() implies c[j] == a[j] by {
        assert(b.subrange(0, a.len() as int)[j] == a[j]);
        assert(c.subrange(0, b.len() as int)[j] == b[j]);
    }
    assert(c.subrange(0, a.len() as int) =~= a);
}

/// An object's address — the first index holding its content — never
/// changes once assigned: extending the arena keeps it.
pub proof fn lemma_first_at_prefix(s: Seq<ObjModel>, t: Seq<ObjModel>, o: ObjModel, i: int)
    requires
        s.is_prefix_of(t),
        first_at(s, o, i),
    ensures
        first_at(t, o, i),
{
    assert forall|j: int| 0 <= j < s.len() implies t[j] == s[j] by {
        assert(t.subrange(0, s.len() as int)[j] == s[j]);
    }
}

/// Extending the arena cannot lower an author's action count.
pub proof fn lemma_author_count_monotone(s: Seq<ObjModel>, i: int, author: u64)
    requires
        0 <= i <= s.len(),
    ensures
        author_count(s.subrange(0, i), author) <= author_count(s, author),
    decreases s.len() - i,
{
    if i < s.len() {
        lemma_author_count_monotone(s, i + 1, author);
        assert(s.subrange(0, i + 1).drop_last() =~= s.subrange(0, i));
    } else {
        assert(s.subrange(0, i) =~= s);
    }
}

} // verus!
