//! The session: appends entries under the active cursor, builds the
//! effective context of the active branch, and manages branches (navigate,
//! fork, delete, list).
use vstd::prelude::*;
use crate::errors::SessionError;
use crate::session::{
    build_context_from_entries, build_context_spec, collect_messages, context_start, entry_views,
    find_first, last_compaction, BranchInfo, BuiltContext, BuiltContextView, EntryView,
    PayloadView, SessionEntry, SessionEntryPayload, SessionMetadata,
};
use crate::store::{
    can_store, chain, chain_from, children_of, first_label, fresh_id, has_child, id_listed,
    lemma_chain_head, lemma_chain_push, lemma_chain_step, lemma_find_first,
    lemma_find_first_at, lemma_find_first_push, leaf_ids, prepend, remove_ids, root_path,
    tree_wf, SessionStore, StoreView,
};
use crate::types::{now_millis, AgentMessage, EntryId, MessageView};

verus! {

/// Root-first path of the active branch (empty when there is no cursor).
pub open spec fn active_path(es: Seq<EntryView>, cursor: Option<EntryId>) -> Result<
    Seq<EntryView>,
    EntryId,
> {
    match cursor {
        None => Ok(seq![]),
        Some(c) => root_path(es, c),
    }
}

/// The last known model after appending a payload.
pub open spec fn model_after(m: Option<String>, p: PayloadView) -> Option<String> {
    match p {
        PayloadView::ModelChange { to, .. } => Some(to),
        _ => m,
    }
}

/// Ids removed by deleting the branch through position `i`: the entry, then
/// its ancestors while each is an only child; or the first missing id met.
pub open spec fn del_chain(es: Seq<EntryView>, i: int) -> Result<Seq<EntryId>, EntryId>
    decreases i,
{
    if i < 0 || i >= es.len() {
        Err(EntryId(0))
    } else {
        let id = es[i].id;
        match es[i].parent_id {
            None => Ok(seq![id]),
            Some(p) => if children_of(es, p).len() > 1 {
                Ok(seq![id])
            } else {
                let j = find_first(es, p);
                if j < 0 || j >= i {
                    Err(p)
                } else {
                    match del_chain(es, j) {
                        Ok(d) => Ok(seq![id] + d),
                        Err(x) => Err(x),
                    }
                }
            },
        }
    }
}

/// Ids removed by deleting the branch ending at `leaf`.
pub open spec fn delete_set(es: Seq<EntryView>, leaf: EntryId) -> Result<Seq<EntryId>, EntryId> {
    let i = find_first(es, leaf);
    if i < 0 {
        Err(leaf)
    } else {
        del_chain(es, i)
    }
}

pub open spec fn prepend_ids(a: Seq<EntryId>, r: Result<Seq<EntryId>, EntryId>) -> Result<
    Seq<EntryId>,
    EntryId,
> {
    match r {
        Ok(d) => Ok(a + d),
        Err(x) => Err(x),
    }
}

/// Summary text of the last branch-summary entry for `leaf` on a path.
pub open spec fn branch_summary_in(path: Seq<EntryView>, leaf: EntryId) -> Option<String>
    decreases path.len(),
{
    if path.len() == 0 {
        None
    } else {
        match path.last().payload {
            PayloadView::BranchSummary(bs) => if bs.leaf_id == leaf {
                Some(bs.summary)
            } else {
                branch_summary_in(path.drop_last(), leaf)
            },
            _ => branch_summary_in(path.drop_last(), leaf),
        }
    }
}

/// The branch information of one leaf.
pub open spec fn branch_info_spec(es: Seq<EntryView>, leaf: EntryId) -> Result<
    BranchInfo,
    EntryId,
> {
    match root_path(es, leaf) {
        Err(x) => Err(x),
        Ok(p) => Ok(
            BranchInfo {
                leaf_id: leaf,
                label: first_label(es, leaf),
                message_count: p.len() as usize,
                last_activity: p.last().timestamp,
                summary: branch_summary_in(p, leaf),
            },
        ),
    }
}

/// High-level session over an in-memory store.
#[derive(Debug)]
pub struct Session {
    store: SessionStore,
}

impl View for Session {
    type V = StoreView;

    closed spec fn view(&self) -> StoreView {
        self.store@
    }
}

impl Session {
    /// The session's entries form a well-formed tree.
    pub open spec fn wf(&self) -> bool {
        tree_wf(self@.entries)
    }

    /// A session over the given store.
    pub fn new(store: SessionStore) -> (s: Session)
        ensures
            s@ == store@,
    {
        Session { store }
    }

    /// Gives the underlying store back.
    pub fn into_store(self) -> (r: SessionStore)
        ensures
            r@ == self@,
    {
        self.store
    }

    /// The underlying store.
    pub fn storage(&self) -> (r: &SessionStore)
        ensures
            r@ == self@,
    {
        &self.store
    }

    /// All entries on the active cursor's path, root first.
    pub fn read_active_path(&self) -> (r: Result<Vec<SessionEntry>, SessionError>)
        requires
            self.wf(),
        ensures
            match r {
                Ok(v) => active_path(self@.entries, self@.metadata.active_cursor) == Ok::<
                    Seq<EntryView>,
                    EntryId,
                >(entry_views(v@)),
                Err(e) => active_path(self@.entries, self@.metadata.active_cursor) is Err && e
                    == SessionError::EntryNotFound(
                    active_path(self@.entries, self@.metadata.active_cursor)->Err_0,
                ),
            },
    {
        match self.store.active_cursor() {
            Some(c) => self.store.path_to_root(c),
            None => {
                let v: Vec<SessionEntry> = Vec::new();
                proof {
                    assert(entry_views(v@) =~= Seq::<EntryView>::empty());
                }
                Ok(v)
            },
        }
    }

    /// All entries from the root to `leaf`.
    pub fn read_path_of(&self, leaf: EntryId) -> (r: Result<Vec<SessionEntry>, SessionError>)
        requires
            self.wf(),
        ensures
            match r {
                Ok(v) => root_path(self@.entries, leaf) == Ok::<Seq<EntryView>, EntryId>(
                    entry_views(v@),
                ),
                Err(e) => root_path(self@.entries, leaf) is Err && e
                    == SessionError::EntryNotFound(root_path(self@.entries, leaf)->Err_0),
            },
    {
        self.store.path_to_root(leaf)
    }

    /// The effective context of the active branch.
    pub fn build_context(&self) -> (r: Result<BuiltContext, SessionError>)
        requires
            self.wf(),
        ensures
            match r {
                Ok(c) => active_path(self@.entries, self@.metadata.active_cursor) is Ok && c@
                    == build_context_spec(
                    active_path(self@.entries, self@.metadata.active_cursor)->Ok_0,
                ),
                Err(e) => active_path(self@.entries, self@.metadata.active_cursor) is Err && e
                    == SessionError::EntryNotFound(
                    active_path(self@.entries, self@.metadata.active_cursor)->Err_0,
                ),
            },
    {
        let entries = self.read_active_path()?;
        Ok(build_context_from_entries(entries.as_slice()))
    }

    /// Appends a payload under the active cursor and moves the cursor to it.
    /// A model change also records the new model in the metadata. The new id
    /// comes from the clock; should it already be in use, the session is left
    /// unchanged apart from that model record and a concurrent modification is
    /// reported.
    pub fn append(&mut self, payload: SessionEntryPayload) -> (r: Result<EntryId, SessionError>)
        requires
            old(self).wf(),
        ensures
            final(self).wf(),
            match r {
                Ok(id) => {
                    &&& final(self)@.entries.len() == old(self)@.entries.len() + 1
                    &&& final(self)@.entries == old(self)@.entries.push(
                        EntryView {
                            id: id,
                            parent_id: old(self)@.metadata.active_cursor,
                            timestamp: final(self)@.entries.last().timestamp,
                            payload: payload@,
                        },
                    )
                    &&& can_store(old(self)@.entries, final(self)@.entries.last())
                    &&& final(self)@.metadata == (SessionMetadata {
                        active_cursor: Some(id),
                        model: model_after(old(self)@.metadata.model, payload@),
                        updated_at: final(self)@.metadata.updated_at,
                        ..old(self)@.metadata
                    })
                },
                Err(e) => {
                    &&& e == SessionError::ConcurrentModification
                    &&& final(self)@.entries == old(self)@.entries
                    &&& final(self)@.metadata == (SessionMetadata {
                        model: model_after(old(self)@.metadata.model, payload@),
                        ..old(self)@.metadata
                    })
                },
            },
    {
        let id = self.store.create_entry_id();
        let parent_id = self.store.active_cursor();
        if let SessionEntryPayload::ModelChange { to, .. } = &payload {
            self.store.update_metadata_model(Some(to.clone()));
        }
        let entry = SessionEntry { id, parent_id, timestamp: now_millis(), payload };
        self.store.append_entry(entry)?;
        self.store.set_active_cursor(id);
        Ok(id)
    }

    /// Appends a message under the active cursor and moves the cursor to it.
    pub fn append_message(&mut self, msg: AgentMessage) -> (r: Result<EntryId, SessionError>)
        requires
            old(self).wf(),
        ensures
            final(self).wf(),
            match r {
                Ok(id) => {
                    &&& final(self)@.entries == old(self)@.entries.push(
                        EntryView {
                            id: id,
                            parent_id: old(self)@.metadata.active_cursor,
                            timestamp: final(self)@.entries.last().timestamp,
                            payload: PayloadView::Message(msg@),
                        },
                    )
                    &&& can_store(old(self)@.entries, final(self)@.entries.last())
                    &&& final(self)@.metadata == (SessionMetadata {
                        active_cursor: Some(id),
                        updated_at: final(self)@.metadata.updated_at,
                        ..old(self)@.metadata
                    })
                },
                Err(e) => e == SessionError::ConcurrentModification && final(self)@ == old(
                    self,
                )@,
            },
    {
        let ghost m = msg@;
        let r = self.append(SessionEntryPayload::Message(msg));
        proof {
            if r is Err {
                assert(final(self)@.metadata == old(self)@.metadata);
            }
        }
        r
    }

    /// Moves the cursor to `target`; when it moves away from an existing
    /// cursor, a branch-switch record is first attached under the old cursor.
    pub fn navigate_to(&mut self, target: EntryId) -> (r: Result<(), SessionError>)
        requires
            old(self).wf(),
        ensures
            final(self).wf(),
            match r {
                Ok(_) => {
                    &&& final(self)@.metadata == (SessionMetadata {
                        active_cursor: Some(target),
                        updated_at: final(self)@.metadata.updated_at,
                        ..old(self)@.metadata
                    })
                    &&& match old(self)@.metadata.active_cursor {
                        Some(from) => if from != target {
                            &&& final(self)@.entries == old(self)@.entries.push(
                                EntryView {
                                    id: final(self)@.entries.last().id,
                                    parent_id: Some(from),
                                    timestamp: final(self)@.entries.last().timestamp,
                                    payload: PayloadView::BranchSwitch {
                                        from: from,
                                        to: target,
                                        summary: None,
                                    },
                                },
                            )
                            &&& can_store(old(self)@.entries, final(self)@.entries.last())
                        } else {
                            final(self)@.entries == old(self)@.entries
                        },
                        None => final(self)@.entries == old(self)@.entries,
                    }
                },
                Err(e) => e == SessionError::ConcurrentModification && final(self)@ == old(
                    self,
                )@,
            },
    {
        let current = self.store.active_cursor();
        if let Some(from) = current {
            if from != target {
                let switch_id = self.store.create_entry_id();
                let entry = SessionEntry {
                    id: switch_id,
                    parent_id: Some(from),
                    timestamp: now_millis(),
                    payload: SessionEntryPayload::BranchSwitch { from, to: target, summary: None },
                };
                self.store.append_entry(entry)?;
            }
        }
        self.store.set_active_cursor(target);
        Ok(())
    }

    /// Forks at `from_entry`: attaches a branch-point record under it and
    /// moves the cursor to that record, whose id is returned.
    pub fn fork_branch(&mut self, from_entry: EntryId, label: Option<String>) -> (r: Result<
        EntryId,
        SessionError,
    >)
        requires
            old(self).wf(),
        ensures
            final(self).wf(),
            match r {
                Ok(bp) => {
                    &&& final(self)@.entries == old(self)@.entries.push(
                        EntryView {
                            id: bp,
                            parent_id: Some(from_entry),
                            timestamp: final(self)@.entries.last().timestamp,
                            payload: PayloadView::BranchPoint { from: from_entry, label: label },
                        },
                    )
                    &&& can_store(old(self)@.entries, final(self)@.entries.last())
                    &&& final(self)@.metadata == (SessionMetadata {
                        active_cursor: Some(bp),
                        updated_at: final(self)@.metadata.updated_at,
                        ..old(self)@.metadata
                    })
                },
                Err(e) => {
                    &&& e == SessionError::ConcurrentModification
                    &&& final(self)@.entries == old(self)@.entries
                    &&& final(self)@.metadata == (SessionMetadata {
                        active_cursor: Some(from_entry),
                        updated_at: final(self)@.metadata.updated_at,
                        ..old(self)@.metadata
                    })
                },
            },
    {
        self.store.set_active_cursor(from_entry);
        let bp_id = self.store.create_entry_id();
        let entry = SessionEntry {
            id: bp_id,
            parent_id: Some(from_entry),
            timestamp: now_millis(),
            payload: SessionEntryPayload::BranchPoint { from: from_entry, label },
        };
        self.store.append_entry(entry)?;
        self.store.set_active_cursor(bp_id);
        Ok(bp_id)
    }

    /// Deletes the branch ending at `leaf`: the leaf and its ancestors while
    /// each is an only child. A cursor on a deleted entry moves to the nearest
    /// surviving ancestor (or is cleared when there is none).
    pub fn delete_branch(&mut self, leaf: EntryId) -> (r: Result<(), SessionError>)
        requires
            old(self).wf(),
        ensures
            final(self).wf(),
            match r {
                Ok(_) => delete_set(old(self)@.entries, leaf) is Ok && {
                    let d = delete_set(old(self)@.entries, leaf)->Ok_0;
                    let es = old(self)@.entries;
                    let top = es[find_first(es, d.last())];
                    let deleted = match old(self)@.metadata.active_cursor {
                        Some(c) => d.contains(c),
                        None => false,
                    };
                    &&& final(self)@.entries == remove_ids(es, d)
                    &&& final(self)@.metadata == (SessionMetadata {
                        active_cursor: if deleted {
                            top.parent_id
                        } else {
                            old(self)@.metadata.active_cursor
                        },
                        updated_at: final(self)@.metadata.updated_at,
                        ..old(self)@.metadata
                    })
                },
                Err(e) => delete_set(old(self)@.entries, leaf) is Err && e
                    == SessionError::EntryNotFound(delete_set(old(self)@.entries, leaf)->Err_0)
                    && final(self)@ == old(self)@,
            },
    {
        let ghost es = self@.entries;
        let mut to_delete: Vec<EntryId> = Vec::new();
        let mut current = leaf;
        proof {
            lemma_find_first(es, current);
            assert(prepend_ids(seq![], delete_set(es, current)) == delete_set(es, current)) by {
                match delete_set(es, current) {
                    Ok(d) => {
                        assert(Seq::<EntryId>::empty() + d =~= d);
                    },
                    Err(_) => {},
                }
            }
        }
        loop
            invariant_except_break
                es == self@.entries,
                self@ == old(self)@,
                tree_wf(es),
                delete_set(es, leaf) == prepend_ids(to_delete@, delete_set(es, current)),
                -1 <= find_first(es, current) < es.len(),
            ensures
                es == self@.entries,
                self@ == old(self)@,
                tree_wf(es),
                delete_set(es, leaf) == Ok::<Seq<EntryId>, EntryId>(to_delete@),
                to_delete@.len() > 0,
                find_first(es, to_delete@.last()) >= 0,
            decreases find_first(es, current) + 1,
        {
            match self.store.index_of(current) {
                None => {
                    return Err(SessionError::EntryNotFound(current));
                },
                Some(j) => {
                    proof {
                        lemma_find_first(es, current);
                    }
                    let parent = self.store.entry_parent(j);
                    let ghost before = to_delete@;
                    to_delete.push(current);
                    match parent {
                        None => {
                            proof {
                                assert(before + seq![current] =~= before.push(current));
                            }
                            break ;
                        },
                        Some(p) => {
                            if self.store.child_count(p) > 1 {
                                proof {
                                    assert(before + seq![current] =~= before.push(current));
                                }
                                break ;
                            }
                            proof {
                                lemma_find_first(es, p);
                                let k = find_first(es, p);
                                if k >= 0 {
                                    assert(es[j as int].parent_id == Some(es[k].id));
                                }
                                match delete_set(es, p) {
                                    Ok(d) => {
                                        assert(before + (seq![current] + d) =~= before.push(
                                            current,
                                        ) + d);
                                    },
                                    Err(_) => {},
                                }
                            }
                            current = p;
                        },
                    }
                },
            }
        }
        let top_id = to_delete[to_delete.len() - 1];
        proof {
            lemma_find_first(es, top_id);
        }
        let top_idx = self.store.index_of(top_id);
        let new_cursor = match top_idx {
            Some(t) => self.store.entry_parent(t),
            None => None,
        };
        let old_cursor = self.store.active_cursor();
        let cursor_deleted = match old_cursor {
            Some(c) => id_listed(&to_delete, c),
            None => false,
        };
        self.store.delete_entries(to_delete);
        if cursor_deleted {
            if let Some(c) = new_cursor {
                self.store.set_active_cursor(c);
            }
        }
        Ok(())
    }

    /// One summary per leaf: its label, path length, last activity and the
    /// last branch summary written for it.
    pub fn list_branches(&self) -> (r: Result<Vec<BranchInfo>, SessionError>)
        requires
            self.wf(),
        ensures
            ({
                let es = self@.entries;
                let leaves = leaf_ids(es, es);
                match r {
                    Ok(bs) => bs@.len() == leaves.len() && forall|k: int|
                        0 <= k < leaves.len() ==> branch_info_spec(es, #[trigger] leaves[k])
                            == Ok::<BranchInfo, EntryId>(bs@[k]),
                    Err(e) => exists|k: int|
                        0 <= k < leaves.len() && root_path(es, #[trigger] leaves[k]) is Err && e
                            == SessionError::EntryNotFound(root_path(es, leaves[k])->Err_0),
                }
            }),
    {
        let ghost es = self@.entries;
        let leaves = self.store.all_leaves();
        let mut out: Vec<BranchInfo> = Vec::new();
        let mut k: usize = 0;
        while k < leaves.len()
            invariant
                es == self@.entries,
                tree_wf(es),
                leaves@ == leaf_ids(es, es),
                k <= leaves.len(),
                out@.len() == k,
                forall|t: int|
                    0 <= t < k ==> branch_info_spec(es, #[trigger] leaves@[t]) == Ok::<
                        BranchInfo,
                        EntryId,
                    >(out@[t]),
            decreases leaves.len() - k,
        {
            let leaf_id = leaves[k];
            let path = match self.store.path_to_root(leaf_id) {
                Ok(p) => p,
                Err(e) => {
                    assert(root_path(es, leaves@[k as int]) is Err);
                    return Err(e);
                },
            };
            let ghost pv = entry_views(path@);
            proof {
                let i = find_first(es, leaf_id);
                lemma_chain_head(es, i);
                assert(pv.len() >= 1);
                assert(pv.last() == pv[pv.len() - 1]);
            }
            let message_count = path.len();
            let last_activity = path[message_count - 1].timestamp;
            let label = self.store.label_at(leaf_id);
            let summary = summary_for_leaf(&path, leaf_id);
            let info = BranchInfo { leaf_id, label, message_count, last_activity, summary };
            out.push(info);
            k = k + 1;
        }
        Ok(out)
    }

    /// A snapshot of the metadata.
    pub fn metadata(&self) -> (m: SessionMetadata)
        ensures
            m == self@.metadata,
    {
        self.store.metadata()
    }
}

/// Summary text of the last branch-summary entry for `leaf` on a path.
pub fn summary_for_leaf(path: &Vec<SessionEntry>, leaf: EntryId) -> (r: Option<String>)
    ensures
        r == branch_summary_in(entry_views(path@), leaf),
{
    let ghost pv = entry_views(path@);
    let mut i = path.len();
    proof {
        assert(pv.subrange(0, i as int) =~= pv);
    }
    while i > 0
        invariant
            pv == entry_views(path@),
            i <= path.len(),
            branch_summary_in(pv, leaf) == branch_summary_in(pv.subrange(0, i as int), leaf),
        decreases i,
    {
        proof {
            assert(pv.subrange(0, i as int).drop_last() =~= pv.subrange(0, i - 1));
            assert(pv.subrange(0, i as int).last() == path@[i - 1]@);
        }
        if let SessionEntryPayload::BranchSummary(bs) = &path[i - 1].payload {
            if bs.leaf_id == leaf {
                return Some(bs.summary.clone());
            }
        }
        i = i - 1;
    }
    None
}

} // verus!
