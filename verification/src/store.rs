//! In-memory session storage: a tree of entries linked by parent ids, with
//! an active cursor. The tree is kept acyclic by construction: every entry's
//! parent, when present, was stored before it.
use vstd::prelude::*;
use crate::errors::SessionError;
use crate::session::{
    entry_views, find_first, payload_kind, EntryView, PayloadView, SessionEntry,
    SessionEntryKind, SessionEntryPayload, SessionMetadata,
};
use crate::types::{clone_opt_string, now_millis, EntryId};

verus! {

/// Ids are pairwise distinct.
pub open spec fn ids_distinct(es: Seq<EntryView>) -> bool {
    forall|i: int, j: int|
        #![trigger es[i], es[j]]
        0 <= i < es.len() && 0 <= j < es.len() && i != j ==> es[i].id != es[j].id
}

/// Every parent that is present comes before its child.
pub open spec fn parents_before(es: Seq<EntryView>) -> bool {
    forall|i: int, j: int|
        #![trigger es[i], es[j]]
        0 <= i < es.len() && 0 <= j < es.len() && es[i].parent_id == Some(es[j].id) ==> j < i
}

/// Well-formedness of a stored entry sequence.
pub open spec fn tree_wf(es: Seq<EntryView>) -> bool {
    ids_distinct(es) && parents_before(es)
}

/// Some entry names `id` as its parent.
pub open spec fn has_child(es: Seq<EntryView>, id: EntryId) -> bool {
    exists|j: int| 0 <= j < es.len() && #[trigger] es[j].parent_id == Some(id)
}

/// `id` neither names an entry nor is named as a parent.
pub open spec fn fresh_id(es: Seq<EntryView>, id: EntryId) -> bool {
    find_first(es, id) < 0 && !has_child(es, id)
}

/// An entry may be stored: its id is fresh and it is not its own parent.
pub open spec fn can_store(es: Seq<EntryView>, e: EntryView) -> bool {
    fresh_id(es, e.id) && e.parent_id != Some(e.id)
}

/// Leaf-first chain of entries from position `i` up to the root, or the id
/// of the first missing ancestor.
pub open spec fn chain(es: Seq<EntryView>, i: int) -> Result<Seq<EntryView>, EntryId>
    decreases i,
{
    if i < 0 || i >= es.len() {
        Err(EntryId(0))
    } else {
        match es[i].parent_id {
            None => Ok(seq![es[i]]),
            Some(p) => {
                let j = find_first(es, p);
                if j < 0 || j >= i {
                    Err(p)
                } else {
                    match chain(es, j) {
                        Ok(c) => Ok(seq![es[i]] + c),
                        Err(x) => Err(x),
                    }
                }
            },
        }
    }
}

/// Leaf-first chain from the entry with the given id.
pub open spec fn chain_from(es: Seq<EntryView>, id: EntryId) -> Result<Seq<EntryView>, EntryId> {
    let i = find_first(es, id);
    if i < 0 {
        Err(id)
    } else {
        chain(es, i)
    }
}

/// Root-first path to the entry with the given id.
pub open spec fn root_path(es: Seq<EntryView>, id: EntryId) -> Result<Seq<EntryView>, EntryId> {
    match chain_from(es, id) {
        Ok(c) => Ok(c.reverse()),
        Err(x) => Err(x),
    }
}

pub open spec fn prepend(a: Seq<EntryView>, r: Result<Seq<EntryView>, EntryId>) -> Result<
    Seq<EntryView>,
    EntryId,
> {
    match r {
        Ok(c) => Ok(a + c),
        Err(x) => Err(x),
    }
}

pub proof fn lemma_find_first(es: Seq<EntryView>, id: EntryId)
    ensures
        -1 <= find_first(es, id) < es.len(),
        find_first(es, id) >= 0 ==> es[find_first(es, id)].id == id,
        find_first(es, id) >= 0 ==> forall|k: int|
            0 <= k < find_first(es, id) ==> #[trigger] es[k].id != id,
        find_first(es, id) < 0 ==> forall|k: int| 0 <= k < es.len() ==> #[trigger] es[k].id != id,
    decreases es.len(),
{
    if es.len() > 0 {
        lemma_find_first(es.drop_last(), id);
        assert forall|k: int| 0 <= k < es.len() - 1 implies es.drop_last()[k] == #[trigger] es[k] by {}
    }
}

/// With distinct ids, the position of the entry at `i` is `i`.
pub proof fn lemma_find_first_at(es: Seq<EntryView>, i: int)
    requires
        ids_distinct(es),
        0 <= i < es.len(),
    ensures
        find_first(es, es[i].id) == i,
{
    lemma_find_first(es, es[i].id);
    let f = find_first(es, es[i].id);
    if f != i {
        assert(es[f].id == es[i].id);
    }
}

/// Pushing a fresh entry does not move any existing position lookup.
pub proof fn lemma_find_first_push(es: Seq<EntryView>, e: EntryView, id: EntryId)
    ensures
        find_first(es.push(e), id) == (if find_first(es, id) >= 0 {
            find_first(es, id)
        } else if e.id == id {
            es.len() as int
        } else {
            -1
        }),
{
    assert(es.push(e).drop_last() =~= es);
}

/// Chains are unaffected by pushing an entry whose id is fresh.
pub proof fn lemma_chain_push(es: Seq<EntryView>, e: EntryView, i: int)
    requires
        fresh_id(es, e.id),
        0 <= i < es.len(),
    ensures
        chain(es.push(e), i) == chain(es, i),
    decreases i,
{
    let es2 = es.push(e);
    assert(es2[i] == es[i]);
    match es[i].parent_id {
        None => {},
        Some(p) => {
            lemma_find_first_push(es, e, p);
            if find_first(es, p) < 0 {
                assert(es[i].parent_id == Some(p));
                if e.id == p {
                    assert(has_child(es, e.id));
                }
            }
            let j = find_first(es, p);
            if 0 <= j && j < i {
                lemma_chain_push(es, e, j);
            }
        },
    }
}

/// Under well-formedness a chain step follows the parent link.
pub proof fn lemma_chain_step(es: Seq<EntryView>, i: int)
    requires
        tree_wf(es),
        0 <= i < es.len(),
    ensures
        chain(es, i) == match es[i].parent_id {
            None => Ok(seq![es[i]]),
            Some(p) => prepend(seq![es[i]], chain_from(es, p)),
        },
{
    match es[i].parent_id {
        None => {},
        Some(p) => {
            lemma_find_first(es, p);
            let j = find_first(es, p);
            if j >= 0 {
                assert(es[i].parent_id == Some(es[j].id));
                assert(j < i);
            }
        },
    }
}

/// A chain, when it exists, is non-empty and starts at its entry.
pub proof fn lemma_chain_head(es: Seq<EntryView>, i: int)
    requires
        0 <= i < es.len(),
        chain(es, i) is Ok,
    ensures
        chain(es, i)->Ok_0.len() >= 1,
        chain(es, i)->Ok_0[0] == es[i],
{
}


/// Entries whose parent is `p`, in order.
pub open spec fn children_of(es: Seq<EntryView>, p: EntryId) -> Seq<EntryView>
    decreases es.len(),
{
    if es.len() == 0 {
        seq![]
    } else {
        let r = children_of(es.drop_last(), p);
        if es.last().parent_id == Some(p) {
            r.push(es.last())
        } else {
            r
        }
    }
}

/// Ids of the entries of `es` that have no child in `all`, in order.
pub open spec fn leaf_ids(es: Seq<EntryView>, all: Seq<EntryView>) -> Seq<EntryId>
    decreases es.len(),
{
    if es.len() == 0 {
        seq![]
    } else {
        let r = leaf_ids(es.drop_last(), all);
        if has_child(all, es.last().id) {
            r
        } else {
            r.push(es.last().id)
        }
    }
}

/// Name of the first label entry whose parent is `id`.
pub open spec fn first_label(es: Seq<EntryView>, id: EntryId) -> Option<String>
    decreases es.len(),
{
    if es.len() == 0 {
        None
    } else {
        match first_label(es.drop_last(), id) {
            Some(n) => Some(n),
            None => match es.last().payload {
                PayloadView::Label { name } => if es.last().parent_id == Some(id) {
                    Some(name)
                } else {
                    None
                },
                _ => None,
            },
        }
    }
}

/// Ids of the entries of a given kind, in order.
pub open spec fn ids_of_kind(es: Seq<EntryView>, k: SessionEntryKind) -> Seq<EntryId>
    decreases es.len(),
{
    if es.len() == 0 {
        seq![]
    } else {
        let r = ids_of_kind(es.drop_last(), k);
        if payload_kind(es.last().payload) == k {
            r.push(es.last().id)
        } else {
            r
        }
    }
}

/// The entries whose ids are not listed, in order.
pub open spec fn remove_ids(es: Seq<EntryView>, ids: Seq<EntryId>) -> Seq<EntryView>
    decreases es.len(),
{
    if es.len() == 0 {
        seq![]
    } else {
        let r = remove_ids(es.drop_last(), ids);
        if ids.contains(es.last().id) {
            r
        } else {
            r.push(es.last())
        }
    }
}

/// The ids of a chain.
pub open spec fn chain_ids(c: Seq<EntryView>) -> Seq<EntryId> {
    c.map_values(|e: EntryView| e.id)
}

/// The first element of `xs` that also occurs in `ys`.
pub open spec fn first_common(xs: Seq<EntryId>, ys: Seq<EntryId>) -> Option<EntryId>
    decreases xs.len(),
{
    if xs.len() == 0 {
        None
    } else if ys.contains(xs[0]) {
        Some(xs[0])
    } else {
        first_common(xs.drop_first(), ys)
    }
}

/// The nearest common ancestor of two entries, or the first missing id met.
pub open spec fn common_ancestor_spec(es: Seq<EntryView>, a: EntryId, b: EntryId) -> Result<
    Option<EntryId>,
    EntryId,
> {
    match chain_from(es, a) {
        Err(x) => Err(x),
        Ok(ca) => match chain_from(es, b) {
            Err(y) => Err(y),
            Ok(cb) => Ok(first_common(chain_ids(ca), chain_ids(cb))),
        },
    }
}

pub proof fn lemma_remove_ids_subset(es: Seq<EntryView>, ids: Seq<EntryId>)
    ensures
        forall|x: EntryView| #[trigger] remove_ids(es, ids).contains(x) ==> es.contains(x),
        forall|x: EntryView| remove_ids(es, ids).contains(x) ==> !ids.contains(x.id),
        forall|x: EntryView| es.contains(x) && !ids.contains(x.id) ==> #[trigger] remove_ids(
            es,
            ids,
        ).contains(x),
    decreases es.len(),
{
    if es.len() > 0 {
        let d = es.drop_last();
        lemma_remove_ids_subset(d, ids);
        let r = remove_ids(d, ids);
        let last = es.last();
        assert forall|x: EntryView| d.contains(x) implies es.contains(x) by {
            let k = choose|k: int| 0 <= k < d.len() && d[k] == x;
            assert(es[k] == x);
        }
        assert(es.contains(last)) by {
            assert(es[es.len() - 1] == last);
        }
        assert forall|x: EntryView| es.contains(x) implies d.contains(x) || x == last by {
            let k = choose|k: int| 0 <= k < es.len() && es[k] == x;
            if k < es.len() - 1 {
                assert(d[k] == x);
            }
        }
        if ids.contains(last.id) {
            assert(remove_ids(es, ids) == r);
        } else {
            let r2 = r.push(last);
            assert(remove_ids(es, ids) == r2);
            assert forall|x: EntryView| r2.contains(x) implies r.contains(x) || x == last by {
                let k = choose|k: int| 0 <= k < r2.len() && r2[k] == x;
                if k < r.len() {
                    assert(r[k] == x);
                }
            }
            assert(r2.contains(last)) by {
                assert(r2[r.len() as int] == last);
            }
            assert forall|x: EntryView| r.contains(x) implies r2.contains(x) by {
                let k = choose|k: int| 0 <= k < r.len() && r[k] == x;
                assert(r2[k] == x);
            }
        }
    }
}

/// Removing entries keeps the tree well formed.
pub proof fn lemma_remove_ids_wf(es: Seq<EntryView>, ids: Seq<EntryId>)
    requires
        tree_wf(es),
    ensures
        tree_wf(remove_ids(es, ids)),
    decreases es.len(),
{
    if es.len() > 0 {
        let d = es.drop_last();
        assert forall|i: int, j: int|
            #![trigger d[i], d[j]]
            0 <= i < d.len() && 0 <= j < d.len() && i != j implies d[i].id != d[j].id by {
            assert(d[i] == es[i] && d[j] == es[j]);
        }
        assert forall|i: int, j: int|
            #![trigger d[i], d[j]]
            0 <= i < d.len() && 0 <= j < d.len() && d[i].parent_id == Some(d[j].id) implies j
            < i by {
            assert(d[i] == es[i] && d[j] == es[j]);
        }
        lemma_remove_ids_wf(d, ids);
        let r = remove_ids(d, ids);
        let last = es.last();
        if !ids.contains(last.id) {
            lemma_remove_ids_subset(d, ids);
            let r2 = r.push(last);
            assert forall|i: int| 0 <= i < r.len() implies #[trigger] r[i].id != last.id
                && r[i].parent_id != Some(last.id) by {
                assert(r.contains(r[i]));
                assert(d.contains(r[i]));
                let k = choose|k: int| 0 <= k < d.len() && d[k] == r[i];
                assert(es[k] == r[i]);
                assert(es[es.len() - 1] == last);
                if r[i].parent_id == Some(last.id) {
                    assert(es[k].parent_id == Some(es[es.len() - 1].id));
                }
            }
            assert forall|i: int, j: int|
                #![trigger r2[i], r2[j]]
                0 <= i < r2.len() && 0 <= j < r2.len() && i != j implies r2[i].id
                != r2[j].id by {
                if i < r.len() && j < r.len() {
                    assert(r2[i] == r[i] && r2[j] == r[j]);
                } else if i < r.len() {
                    assert(r2[i] == r[i]);
                } else {
                    assert(r2[j] == r[j]);
                }
            }
            assert forall|i: int, j: int|
                #![trigger r2[i], r2[j]]
                0 <= i < r2.len() && 0 <= j < r2.len() && r2[i].parent_id == Some(
                    r2[j].id,
                ) implies j < i by {
                if i < r.len() && j < r.len() {
                    assert(r2[i] == r[i] && r2[j] == r[j]);
                } else if i < r.len() {
                    assert(r2[i] == r[i]);
                } else if j == i {
                    assert(es[es.len() - 1].parent_id == Some(es[es.len() - 1].id));
                }
            }
        }
    }
}

/// Model of a [`SessionStore`]: metadata and stored entries in insertion order.
pub struct StoreView {
    pub metadata: SessionMetadata,
    pub entries: Seq<EntryView>,
}

/// In-memory storage of one session's entry tree.
#[derive(Debug)]
pub struct SessionStore {
    metadata: SessionMetadata,
    entries: Vec<SessionEntry>,
}

impl View for SessionStore {
    type V = StoreView;

    closed spec fn view(&self) -> StoreView {
        StoreView { metadata: self.metadata, entries: entry_views(self.entries@) }
    }
}

impl Clone for SessionStore {
    fn clone(&self) -> (res: Self)
        ensures
            res@ == self@,
    {
        let mut entries: Vec<SessionEntry> = Vec::new();
        let mut i: usize = 0;
        while i < self.entries.len()
            invariant
                i <= self.entries@.len(),
                entry_views(entries@) == entry_views(self.entries@).subrange(0, i as int),
            decreases self.entries.len() - i,
        {
            let e = self.entries[i].clone();
            let ghost before = entry_views(entries@);
            entries.push(e);
            proof {
                assert(entry_views(entries@) =~= before.push(e@));
                assert(entry_views(self.entries@).subrange(0, i + 1) =~= entry_views(
                    self.entries@,
                ).subrange(0, i as int).push(e@));
            }
            i = i + 1;
        }
        proof {
            assert(entry_views(self.entries@).subrange(0, i as int) =~= entry_views(
                self.entries@,
            ));
        }
        SessionStore { metadata: self.metadata.clone(), entries }
    }
}

impl SessionStore {
    /// The stored entries form a well-formed tree.
    pub open spec fn wf(&self) -> bool {
        tree_wf(self@.entries)
    }

    /// A store with the given metadata and no entries.
    pub fn new(metadata: SessionMetadata) -> (s: SessionStore)
        ensures
            s.wf(),
            s@.metadata == metadata,
            s@.entries.len() == 0,
    {
        let s = SessionStore { metadata, entries: Vec::new() };
        proof {
            assert(entry_views(s.entries@) =~= Seq::<EntryView>::empty());
        }
        s
    }

    /// The session id.
    pub fn session_id(&self) -> (r: &String)
        ensures
            *r == self@.metadata.id,
    {
        &self.metadata.id
    }

    /// A snapshot of the metadata.
    pub fn metadata(&self) -> (m: SessionMetadata)
        ensures
            m == self@.metadata,
    {
        self.metadata.clone()
    }

    /// A new entry id: a time-ordered version-7 UUID.
    pub fn create_entry_id(&self) -> (id: EntryId)
        ensures
            crate::types::is_v7(id.0),
    {
        EntryId::new()
    }

    /// Position of the entry with the given id.
    pub fn index_of(&self, id: EntryId) -> (r: Option<usize>)
        ensures
            match r {
                Some(i) => find_first(self@.entries, id) == i,
                None => find_first(self@.entries, id) < 0,
            },
    {
        let ghost es = self@.entries;
        let mut i: usize = 0;
        while i < self.entries.len()
            invariant
                es == entry_views(self.entries@),
                i <= self.entries.len(),
                find_first(es.subrange(0, i as int), id) < 0,
            decreases self.entries.len() - i,
        {
            proof {
                assert(es.subrange(0, i + 1).drop_last() =~= es.subrange(0, i as int));
            }
            if self.entries[i].id == id {
                proof {
                    lemma_find_first(es, id);
                    lemma_find_first(es.subrange(0, i as int), id);
                    assert(es.subrange(0, i as int).len() == i);
                    assert(forall|k: int| 0 <= k < i ==> es.subrange(0, i as int)[k] == #[trigger] es[k]);
                    assert(es[i as int].id == id);
                    let f = find_first(es, id);
                    if f != i {
                        if f < i {
                            assert(es.subrange(0, i as int)[f].id == id);
                        }
                    }
                }
                return Some(i);
            }
            i = i + 1;
        }
        proof {
            assert(es.subrange(0, i as int) =~= es);
        }
        None
    }

    /// Whether an entry with the given id is stored.
    pub fn contains(&self, id: EntryId) -> (b: bool)
        ensures
            b == (find_first(self@.entries, id) >= 0),
    {
        self.index_of(id).is_some()
    }

    /// Whether some stored entry names `id` as its parent.
    pub fn has_child_entry(&self, id: EntryId) -> (b: bool)
        ensures
            b == has_child(self@.entries, id),
    {
        let ghost es = self@.entries;
        let mut i: usize = 0;
        while i < self.entries.len()
            invariant
                es == entry_views(self.entries@),
                i <= self.entries.len(),
                forall|k: int| 0 <= k < i ==> #[trigger] es[k].parent_id != Some(id),
            decreases self.entries.len() - i,
        {
            if self.entries[i].parent_id == Some(id) {
                assert(es[i as int].parent_id == Some(id));
                return true;
            }
            i = i + 1;
        }
        false
    }

    /// Stores a new entry, unless its id is already in use (as an entry or as
    /// a parent reference), which is reported as a concurrent modification.
    /// A stored entry sets the last-modified time.
    pub fn append_entry(&mut self, entry: SessionEntry) -> (r: Result<(), SessionError>)
        requires
            old(self).wf(),
        ensures
            final(self).wf(),
            can_store(old(self)@.entries, entry@) <==> r is Ok,
            r is Ok ==> final(self)@.entries == old(self)@.entries.push(entry@),
            r is Ok ==> final(self)@.metadata == (SessionMetadata {
                updated_at: final(self)@.metadata.updated_at,
                ..old(self)@.metadata
            }),
            r is Err ==> final(self)@ == old(self)@,
            r is Err ==> r == Err::<(), SessionError>(SessionError::ConcurrentModification),
    {
        if self.contains(entry.id) || self.has_child_entry(entry.id) || entry.parent_id == Some(
            entry.id,
        ) {
            return Err(SessionError::ConcurrentModification);
        }
        let ghost es = self@.entries;
        let ghost ev = entry@;
        proof {
            lemma_find_first(es, entry.id);
            assert(entry_views(self.entries@.push(entry)) =~= es.push(ev));
            let es2 = es.push(ev);
            assert forall|i: int, j: int|
                #![trigger es2[i], es2[j]]
                0 <= i < es2.len() && 0 <= j < es2.len() && i != j implies es2[i].id
                != es2[j].id by {
                if i < es.len() && j < es.len() {
                    assert(es2[i] == es[i] && es2[j] == es[j]);
                } else if i < es.len() {
                    assert(es2[i] == es[i]);
                } else {
                    assert(es2[j] == es[j]);
                }
            }
            assert forall|i: int, j: int|
                #![trigger es2[i], es2[j]]
                0 <= i < es2.len() && 0 <= j < es2.len() && es2[i].parent_id == Some(
                    es2[j].id,
                ) implies j < i by {
                if i < es.len() && j < es.len() {
                    assert(es2[i] == es[i] && es2[j] == es[j]);
                } else if i < es.len() {
                    assert(es2[i] == es[i]);
                    assert(es[i].parent_id == Some(ev.id));
                    assert(has_child(es, ev.id));
                } else if j == i {
                    assert(es2[i].parent_id == Some(es2[i].id));
                }
            }
        }
        self.entries.push(entry);
        self.metadata.updated_at = now_millis();
        Ok(())
    }

    /// A copy of the entry with the given id.
    pub fn get_entry(&self, id: EntryId) -> (r: Option<SessionEntry>)
        ensures
            match r {
                Some(e) => find_first(self@.entries, id) >= 0 && e@ == self@.entries[find_first(
                    self@.entries,
                    id,
                )],
                None => find_first(self@.entries, id) < 0,
            },
    {
        match self.index_of(id) {
            Some(i) => {
                proof {
                    lemma_find_first(self@.entries, id);
                }
                Some(self.entries[i].clone())
            },
            None => None,
        }
    }

    /// The active cursor.
    pub fn active_cursor(&self) -> (c: Option<EntryId>)
        ensures
            c == self@.metadata.active_cursor,
    {
        self.metadata.active_cursor
    }

    /// Moves the active cursor (and sets the last-modified time).
    pub fn set_active_cursor(&mut self, id: EntryId)
        requires
            old(self).wf(),
        ensures
            final(self).wf(),
            final(self)@.entries == old(self)@.entries,
            final(self)@.metadata == (SessionMetadata {
                active_cursor: Some(id),
                updated_at: final(self)@.metadata.updated_at,
                ..old(self)@.metadata
            }),
    {
        self.metadata.active_cursor = Some(id);
        self.metadata.updated_at = now_millis();
    }

    /// Sets the session name.
    pub fn update_metadata_name(&mut self, name: Option<String>)
        requires
            old(self).wf(),
        ensures
            final(self).wf(),
            final(self)@.entries == old(self)@.entries,
            final(self)@.metadata == (SessionMetadata { name: name, ..old(self)@.metadata }),
    {
        self.metadata.name = name;
    }

    /// Sets the last known model.
    pub fn update_metadata_model(&mut self, model: Option<String>)
        requires
            old(self).wf(),
        ensures
            final(self).wf(),
            final(self)@.entries == old(self)@.entries,
            final(self)@.metadata == (SessionMetadata { model: model, ..old(self)@.metadata }),
    {
        self.metadata.model = model;
    }


    /// The parent of the entry at position `j`.
    pub fn entry_parent(&self, j: usize) -> (p: Option<EntryId>)
        requires
            j < self@.entries.len(),
        ensures
            p == self@.entries[j as int].parent_id,
    {
        proof {
            assert(self@.entries[j as int] == self.entries@[j as int]@);
        }
        self.entries[j].parent_id
    }

    /// Number of entries whose parent is `parent`.
    pub fn child_count(&self, parent: EntryId) -> (n: usize)
        ensures
            n == children_of(self@.entries, parent).len(),
    {
        let ghost es = self@.entries;
        let mut n: usize = 0;
        let mut i: usize = 0;
        while i < self.entries.len()
            invariant
                es == self@.entries,
                i <= self.entries.len(),
                n == children_of(es.subrange(0, i as int), parent).len(),
                n <= i,
            decreases self.entries.len() - i,
        {
            proof {
                assert(es.subrange(0, i + 1).drop_last() =~= es.subrange(0, i as int));
                assert(es[i as int] == self.entries@[i as int]@);
            }
            if self.entries[i].parent_id == Some(parent) {
                n = n + 1;
            }
            i = i + 1;
        }
        proof {
            assert(es.subrange(0, i as int) =~= es);
        }
        n
    }

    /// Copies of the entries whose parent is `parent`, in insertion order.
    pub fn children(&self, parent: EntryId) -> (r: Vec<SessionEntry>)
        ensures
            entry_views(r@) == children_of(self@.entries, parent),
    {
        let ghost es = self@.entries;
        let mut out: Vec<SessionEntry> = Vec::new();
        let mut i: usize = 0;
        while i < self.entries.len()
            invariant
                es == self@.entries,
                i <= self.entries.len(),
                entry_views(out@) == children_of(es.subrange(0, i as int), parent),
            decreases self.entries.len() - i,
        {
            proof {
                assert(es.subrange(0, i + 1).drop_last() =~= es.subrange(0, i as int));
                assert(es[i as int] == self.entries@[i as int]@);
            }
            if self.entries[i].parent_id == Some(parent) {
                let ghost before = entry_views(out@);
                out.push(self.entries[i].clone());
                proof {
                    assert(entry_views(out@) =~= before.push(es[i as int]));
                }
            }
            i = i + 1;
        }
        proof {
            assert(es.subrange(0, i as int) =~= es);
        }
        out
    }

    /// Ids of the entries that have no children, in insertion order.
    pub fn all_leaves(&self) -> (r: Vec<EntryId>)
        ensures
            r@ == leaf_ids(self@.entries, self@.entries),
    {
        let ghost es = self@.entries;
        let mut out: Vec<EntryId> = Vec::new();
        let mut i: usize = 0;
        while i < self.entries.len()
            invariant
                es == self@.entries,
                i <= self.entries.len(),
                out@ == leaf_ids(es.subrange(0, i as int), es),
            decreases self.entries.len() - i,
        {
            proof {
                assert(es.subrange(0, i + 1).drop_last() =~= es.subrange(0, i as int));
            }
            let id = self.entries[i].id;
            if !self.has_child_entry(id) {
                out.push(id);
            }
            i = i + 1;
        }
        proof {
            assert(es.subrange(0, i as int) =~= es);
        }
        out
    }

    /// Name of the first label entry attached under `id`.
    pub fn label_at(&self, id: EntryId) -> (r: Option<String>)
        ensures
            r == first_label(self@.entries, id),
    {
        let ghost es = self@.entries;
        let mut i: usize = 0;
        while i < self.entries.len()
            invariant
                es == self@.entries,
                i <= self.entries.len(),
                first_label(es.subrange(0, i as int), id) is None,
            decreases self.entries.len() - i,
        {
            proof {
                assert(es.subrange(0, i + 1).drop_last() =~= es.subrange(0, i as int));
            }
            if let SessionEntryPayload::Label { name } = &self.entries[i].payload {
                if self.entries[i].parent_id == Some(id) {
                    proof {
                        lemma_first_label_prefix(es, id, (i + 1) as int);
                    }
                    return Some(name.clone());
                }
            }
            i = i + 1;
        }
        proof {
            assert(es.subrange(0, i as int) =~= es);
        }
        None
    }

    /// Ids of the entries of the given kind, in insertion order.
    pub fn find_entries_by_type(&self, kind: SessionEntryKind) -> (r: Vec<EntryId>)
        ensures
            r@ == ids_of_kind(self@.entries, kind),
    {
        let ghost es = self@.entries;
        let mut out: Vec<EntryId> = Vec::new();
        let mut i: usize = 0;
        while i < self.entries.len()
            invariant
                es == self@.entries,
                i <= self.entries.len(),
                out@ == ids_of_kind(es.subrange(0, i as int), kind),
            decreases self.entries.len() - i,
        {
            proof {
                assert(es.subrange(0, i + 1).drop_last() =~= es.subrange(0, i as int));
            }
            if self.entries[i].kind() == kind {
                out.push(self.entries[i].id);
            }
            i = i + 1;
        }
        proof {
            assert(es.subrange(0, i as int) =~= es);
        }
        out
    }

    /// The nearest entry that is an ancestor of (or equal to) both `a` and `b`.
    pub fn common_ancestor(&self, a: EntryId, b: EntryId) -> (r: Result<
        Option<EntryId>,
        SessionError,
    >)
        requires
            self.wf(),
        ensures
            match r {
                Ok(x) => common_ancestor_spec(self@.entries, a, b) == Ok::<
                    Option<EntryId>,
                    EntryId,
                >(x),
                Err(e) => common_ancestor_spec(self@.entries, a, b) is Err && e
                    == SessionError::EntryNotFound(common_ancestor_spec(self@.entries, a, b)->Err_0),
            },
    {
        let ca = self.ancestor_chain(a)?;
        let cb = self.ancestor_chain(b)?;
        let ghost xs = chain_ids(entry_views(ca@));
        let ghost ys = chain_ids(entry_views(cb@));
        proof {
            assert(xs.subrange(0, xs.len() as int) =~= xs);
        }
        let mut k: usize = 0;
        while k < ca.len()
            invariant
                k <= ca.len(),
                chain_from(self@.entries, a) == Ok::<Seq<EntryView>, EntryId>(entry_views(ca@)),
                chain_from(self@.entries, b) == Ok::<Seq<EntryView>, EntryId>(entry_views(cb@)),
                xs == chain_ids(entry_views(ca@)),
                ys == chain_ids(entry_views(cb@)),
                first_common(xs, ys) == first_common(xs.subrange(k as int, xs.len() as int), ys),
            decreases ca.len() - k,
        {
            let x = ca[k].id;
            assert(xs[k as int] == x);
            let mut m: usize = 0;
            let mut found = false;
            while m < cb.len()
                invariant
                    m <= cb.len(),
                    ys == chain_ids(entry_views(cb@)),
                    found ==> ys.contains(x),
                    !found ==> forall|t: int| 0 <= t < m ==> #[trigger] ys[t] != x,
                decreases cb.len() - m,
            {
                assert(ys[m as int] == cb@[m as int].id);
                if cb[m].id == x {
                    assert(ys[m as int] == x);
                    found = true;
                }
                m = m + 1;
            }
            let ghost rest = xs.subrange(k as int, xs.len() as int);
            proof {
                assert(rest.len() > 0);
                assert(rest[0] == x);
                if !found {
                    assert(!ys.contains(x));
                }
                assert(rest.drop_first() =~= xs.subrange(k + 1, xs.len() as int));
            }
            if found {
                return Ok(Some(x));
            }
            k = k + 1;
        }
        Ok(None)
    }

    /// Removes the listed entries; an active cursor among them is cleared.
    pub fn delete_entries(&mut self, ids: Vec<EntryId>)
        requires
            old(self).wf(),
        ensures
            final(self).wf(),
            final(self)@.entries == remove_ids(old(self)@.entries, ids@),
            final(self)@.metadata == (SessionMetadata {
                active_cursor: match old(self)@.metadata.active_cursor {
                    Some(c) => if ids@.contains(c) {
                        None
                    } else {
                        Some(c)
                    },
                    None => None,
                },
                ..old(self)@.metadata
            }),
    {
        let ghost es = self@.entries;
        let mut kept: Vec<SessionEntry> = Vec::new();
        let mut old_entries: Vec<SessionEntry> = Vec::new();
        std::mem::swap(&mut old_entries, &mut self.entries);
        let mut i: usize = 0;
        while i < old_entries.len()
            invariant
                es == entry_views(old_entries@),
                i <= old_entries.len(),
                entry_views(kept@) == remove_ids(es.subrange(0, i as int), ids@),
            decreases old_entries.len() - i,
        {
            proof {
                assert(es.subrange(0, i + 1).drop_last() =~= es.subrange(0, i as int));
                assert(es[i as int] == old_entries@[i as int]@);
            }
            if !id_listed(&ids, old_entries[i].id) {
                let ghost before = entry_views(kept@);
                kept.push(old_entries[i].clone());
                proof {
                    assert(entry_views(kept@) =~= before.push(es[i as int]));
                }
            }
            i = i + 1;
        }
        proof {
            assert(es.subrange(0, i as int) =~= es);
            lemma_remove_ids_wf(es, ids@);
        }
        self.entries = kept;
        if let Some(c) = self.metadata.active_cursor {
            if id_listed(&ids, c) {
                self.metadata.active_cursor = None;
            }
        }
    }

    /// Leaf-first chain of copies of the entries from `target` up to the root.
    pub fn ancestor_chain(&self, target: EntryId) -> (r: Result<Vec<SessionEntry>, SessionError>)
        requires
            self.wf(),
        ensures
            match r {
                Ok(v) => chain_from(self@.entries, target) == Ok::<Seq<EntryView>, EntryId>(
                    entry_views(v@),
                ),
                Err(e) => chain_from(self@.entries, target) is Err && e
                    == SessionError::EntryNotFound(chain_from(self@.entries, target)->Err_0),
            },
    {
        let ghost es = self@.entries;
        let mut acc: Vec<SessionEntry> = Vec::new();
        let mut cur = target;
        proof {
            lemma_find_first(es, cur);
            assert(entry_views(acc@) =~= Seq::<EntryView>::empty());
            assert(prepend(seq![], chain_from(es, cur)) == chain_from(es, cur)) by {
                match chain_from(es, cur) {
                    Ok(c) => {
                        assert(Seq::<EntryView>::empty() + c =~= c);
                    },
                    Err(_) => {},
                }
            }
        }
        loop
            invariant_except_break
                es == self@.entries,
                tree_wf(es),
                chain_from(es, target) == prepend(entry_views(acc@), chain_from(es, cur)),
                -1 <= find_first(es, cur) < es.len(),
            ensures
                es == self@.entries,
                chain_from(es, target) == Ok::<Seq<EntryView>, EntryId>(entry_views(acc@)),
            decreases find_first(es, cur) + 1,
        {
            match self.index_of(cur) {
                None => {
                    return Err(SessionError::EntryNotFound(cur));
                },
                Some(j) => {
                    let ghost before = entry_views(acc@);
                    let parent = self.entries[j].parent_id;
                    acc.push(self.entries[j].clone());
                    proof {
                        lemma_chain_step(es, j as int);
                        assert(entry_views(acc@) =~= before.push(es[j as int]));
                    }
                    match parent {
                        None => {
                            proof {
                                assert(before + seq![es[j as int]] =~= before.push(es[j as int]));
                            }
                            break ;
                        },
                        Some(p) => {
                            proof {
                                lemma_find_first(es, p);
                                let k = find_first(es, p);
                                if k >= 0 {
                                    assert(es[j as int].parent_id == Some(es[k].id));
                                }
                                match chain_from(es, p) {
                                    Ok(c) => {
                                        assert(before + (seq![es[j as int]] + c) =~= before.push(
                                            es[j as int],
                                        ) + c);
                                    },
                                    Err(_) => {},
                                }
                            }
                            cur = p;
                        },
                    }
                },
            }
        }
        Ok(acc)
    }

    /// For every leaf (in insertion order), the entries from the root to it.
    pub fn paths_to_all_leaves(&self) -> (r: Result<Vec<Vec<SessionEntry>>, SessionError>)
        requires
            self.wf(),
        ensures
            ({
                let es = self@.entries;
                let leaves = leaf_ids(es, es);
                match r {
                    Ok(ps) => ps@.len() == leaves.len() && forall|k: int|
                        0 <= k < leaves.len() ==> root_path(es, #[trigger] leaves[k]) == Ok::<
                            Seq<EntryView>,
                            EntryId,
                        >(entry_views(ps@[k]@)),
                    Err(e) => exists|k: int|
                        0 <= k < leaves.len() && root_path(es, #[trigger] leaves[k]) is Err && e
                            == SessionError::EntryNotFound(root_path(es, leaves[k])->Err_0),
                }
            }),
    {
        let ghost es = self@.entries;
        let leaves = self.all_leaves();
        let mut out: Vec<Vec<SessionEntry>> = Vec::new();
        let mut k: usize = 0;
        while k < leaves.len()
            invariant
                es == self@.entries,
                tree_wf(es),
                leaves@ == leaf_ids(es, es),
                k <= leaves@.len(),
                out@.len() == k,
                forall|t: int|
                    0 <= t < k ==> root_path(es, #[trigger] leaves@[t]) == Ok::<
                        Seq<EntryView>,
                        EntryId,
                    >(entry_views(out@[t]@)),
            decreases leaves.len() - k,
        {
            match self.path_to_root(leaves[k]) {
                Ok(p) => {
                    out.push(p);
                },
                Err(e) => {
                    assert(root_path(es, leaves@[k as int]) is Err);
                    return Err(e);
                },
            }
            k = k + 1;
        }
        Ok(out)
    }

    /// Copies of all entries from the root to `target`, root first.
    pub fn path_to_root(&self, target: EntryId) -> (r: Result<Vec<SessionEntry>, SessionError>)
        requires
            self.wf(),
        ensures
            match r {
                Ok(v) => root_path(self@.entries, target) == Ok::<Seq<EntryView>, EntryId>(
                    entry_views(v@),
                ),
                Err(e) => root_path(self@.entries, target) is Err && e
                    == SessionError::EntryNotFound(root_path(self@.entries, target)->Err_0),
            },
    {
        let chain = self.ancestor_chain(target)?;
        let out = reverse_entries(chain);
        Ok(out)
    }
}


/// Whether `id` occurs in `ids`.
pub fn id_listed(ids: &Vec<EntryId>, id: EntryId) -> (b: bool)
    ensures
        b == ids@.contains(id),
{
    let mut i: usize = 0;
    while i < ids.len()
        invariant
            i <= ids.len(),
            forall|k: int| 0 <= k < i ==> #[trigger] ids@[k] != id,
        decreases ids.len() - i,
    {
        if ids[i] == id {
            assert(ids@[i as int] == id);
            return true;
        }
        i = i + 1;
    }
    false
}

proof fn lemma_first_label_prefix(es: Seq<EntryView>, id: EntryId, n: int)
    requires
        0 < n <= es.len(),
        first_label(es.subrange(0, n - 1), id) is None,
        es[n - 1].parent_id == Some(id),
        es[n - 1].payload is Label,
    ensures
        first_label(es, id) == Some(es[n - 1].payload->Label_name),
    decreases es.len(),
{
    if es.len() == n {
        assert(es.drop_last() =~= es.subrange(0, n - 1));
    } else {
        assert(es.drop_last().subrange(0, n - 1) =~= es.subrange(0, n - 1));
        assert(es.drop_last()[n - 1] == es[n - 1]);
        lemma_first_label_prefix(es.drop_last(), id, n);
    }
}

/// The entries in reverse order.
pub fn reverse_entries(v: Vec<SessionEntry>) -> (out: Vec<SessionEntry>)
    ensures
        entry_views(out@) == entry_views(v@).reverse(),
{
    let ghost orig = entry_views(v@);
    let mut v = v;
    let mut out: Vec<SessionEntry> = Vec::new();
    proof {
        assert(entry_views(v@) =~= orig);
        assert(entry_views(out@) =~= orig.subrange(0, orig.len() as int).reverse().subrange(0, 0));
    }
    while v.len() > 0
        invariant
            v@.len() <= orig.len(),
            entry_views(v@) == orig.subrange(0, v@.len() as int),
            entry_views(out@) == orig.subrange(v@.len() as int, orig.len() as int).reverse(),
        decreases v@.len(),
    {
        let ghost k = v@.len();
        let ghost old_v = v@;
        proof {
            assert(entry_views(old_v)[k - 1] == old_v[k - 1]@);
            assert(orig.subrange(0, k as int)[k - 1] == orig[k - 1]);
        }
        let e = v.pop().unwrap();
        proof {
            assert(e@ == orig[k - 1]);
            assert(v@ =~= old_v.drop_last());
        }
        let ghost out_old = entry_views(out@);
        out.push(e);
        proof {
            assert(entry_views(v@) =~= orig.subrange(0, v@.len() as int));
            assert(entry_views(out@) =~= out_old.push(e@));
            let n = orig.len();
            let target = orig.subrange(k - 1, n as int).reverse();
            assert forall|t: int| 0 <= t < target.len() implies #[trigger] target[t] == out_old.push(
                e@,
            )[t] by {
                if t < n - k {
                    assert(target[t] == orig[n - 1 - t]);
                    assert(out_old[t] == orig.subrange(k as int, n as int)[n - k - 1 - t]);
                } else {
                    assert(target[t] == orig[k - 1]);
                }
            }
            assert(entry_views(out@) =~= target);
        }
    }
    proof {
        assert(orig.subrange(0, orig.len() as int) =~= orig);
    }
    out
}

} // verus!
