//! Session repository: creation, lookup, listing (filter, order, window),
//! deletion and cross-session forks of a root path into a new session.
use vstd::prelude::*;
use crate::chars::{contains_sub, text_contains};
use crate::skills::{lowercase, lowercase_text};
use crate::errors::SessionError;
use crate::session::{
    entry_views, find_first, CreateSessionOptions, EntryView, ForkOptions, ListOrder,
    ListSessionOptions, SessionEntry, SessionMetadata,
};
use crate::store::{chain, lemma_chain_head, lemma_find_first, root_path, tree_wf, SessionStore, StoreView};
use crate::text::{uuid_string, uuid_text};
use crate::types::{clone_opt_string, now_millis, EntryId};

verus! {

broadcast use vstd::seq_lib::group_to_multiset_ensures;

// ── Ordering and listing ─────────────────────────────────────────────────────

/// The timestamp a listing order sorts by.
pub open spec fn sort_key(m: SessionMetadata, order: ListOrder) -> i64 {
    match order {
        ListOrder::UpdatedDesc => m.updated_at,
        ListOrder::UpdatedAsc => m.updated_at,
        ListOrder::CreatedDesc => m.created_at,
        ListOrder::CreatedAsc => m.created_at,
    }
}

/// `a` may come before `b` in the given order.
pub open spec fn comes_first(a: SessionMetadata, b: SessionMetadata, order: ListOrder) -> bool {
    match order {
        ListOrder::UpdatedDesc => sort_key(a, order) >= sort_key(b, order),
        ListOrder::CreatedDesc => sort_key(a, order) >= sort_key(b, order),
        ListOrder::UpdatedAsc => sort_key(a, order) <= sort_key(b, order),
        ListOrder::CreatedAsc => sort_key(a, order) <= sort_key(b, order),
    }
}

/// The sequence is sorted in the given order.
pub open spec fn sorted_by(s: Seq<SessionMetadata>, order: ListOrder) -> bool {
    forall|i: int, j: int| 0 <= i < j < s.len() ==> comes_first(#[trigger] s[i], #[trigger] s[j], order)
}

/// The session's name (empty when unnamed) contains the needle, if any,
/// ignoring case (both are lowercased).
pub open spec fn name_matches(m: SessionMetadata, needle: Option<String>) -> bool {
    match needle {
        None => true,
        Some(n) => contains_sub(
            lowercase(
                match m.name {
                    Some(s) => s@,
                    None => Seq::empty(),
                },
            ),
            lowercase(n@),
        ),
    }
}

/// The sessions whose name matches the needle, in their given order.
pub open spec fn matching(s: Seq<SessionMetadata>, needle: Option<String>) -> Seq<SessionMetadata> {
    s.filter(|m: SessionMetadata| name_matches(m, needle))
}

/// Skip `offset` items (none when absent), then keep at most `limit`.
pub open spec fn window(s: Seq<SessionMetadata>, offset: Option<usize>, limit: Option<usize>) -> Seq<
    SessionMetadata,
> {
    let off: int = match offset {
        Some(o) => o as int,
        None => 0,
    };
    let rest = if off < s.len() {
        s.subrange(off, s.len() as int)
    } else {
        Seq::empty()
    };
    match limit {
        Some(l) => if l < rest.len() {
            rest.subrange(0, l as int)
        } else {
            rest
        },
        None => rest,
    }
}

/// `r` arranges the items of `v` (item `k` of `r` is item `idx[k]` of `v`,
/// each taken once) so that items with equal keys keep their order in `v`.
pub open spec fn stable_arrangement(
    r: Seq<SessionMetadata>,
    v: Seq<SessionMetadata>,
    order: ListOrder,
    idx: Seq<int>,
) -> bool {
    &&& idx.len() == r.len()
    &&& forall|k: int| 0 <= k < r.len() ==> 0 <= #[trigger] idx[k] < v.len() && r[k] == v[idx[k]]
    &&& forall|a: int, b: int| 0 <= a < b < r.len() ==> #[trigger] idx[a] != #[trigger] idx[b]
    &&& forall|a: int, b: int|
        0 <= a < b < r.len() && sort_key(#[trigger] r[a], order) == sort_key(#[trigger] r[b], order)
            ==> idx[a] < idx[b]
}

fn comes_first_exec(a: &SessionMetadata, b: &SessionMetadata, order: ListOrder) -> (r: bool)
    ensures
        r == comes_first(*a, *b, order),
{
    match order {
        ListOrder::UpdatedDesc => a.updated_at >= b.updated_at,
        ListOrder::CreatedDesc => a.created_at >= b.created_at,
        ListOrder::UpdatedAsc => a.updated_at <= b.updated_at,
        ListOrder::CreatedAsc => a.created_at <= b.created_at,
    }
}

/// Sorts sessions in the given order; sessions with equal keys keep their
/// relative order.
pub fn sort_sessions(v: Vec<SessionMetadata>, order: ListOrder) -> (r: Vec<SessionMetadata>)
    ensures
        r@.to_multiset() == v@.to_multiset(),
        sorted_by(r@, order),
        exists|idx: Seq<int>| stable_arrangement(r@, v@, order, idx),
{
    let mut out: Vec<SessionMetadata> = Vec::new();
    let mut i: usize = 0;
    let ghost mut idx: Seq<int> = Seq::empty();
    proof {
        assert(v@.subrange(0, 0) =~= Seq::<SessionMetadata>::empty());
    }
    while i < v.len()
        invariant
            i <= v@.len(),
            out@.to_multiset() == v@.subrange(0, i as int).to_multiset(),
            sorted_by(out@, order),
            idx.len() == out@.len(),
            forall|k: int|
                0 <= k < out@.len() ==> 0 <= #[trigger] idx[k] < i && out@[k] == v@[idx[k]],
            stable_arrangement(out@, v@, order, idx),
        decreases v.len() - i,
    {
        let x = v[i].clone();
        let mut p: usize = 0;
        while p < out.len() && comes_first_exec(&out[p], &x, order)
            invariant
                p <= out@.len(),
                forall|k: int| 0 <= k < p ==> comes_first(#[trigger] out@[k], x, order),
            decreases out.len() - p,
        {
            p = p + 1;
        }
        let ghost old_out = out@;
        let ghost old_idx = idx;
        out.insert(p, x);
        proof {
            idx = old_idx.insert(p as int, i as int);
            let s = out@;
            assert(s == old_out.insert(p as int, x));
            assert forall|a: int, b: int| 0 <= a < b < s.len() implies comes_first(
                #[trigger] s[a],
                #[trigger] s[b],
                order,
            ) by {
                if b < p {
                    assert(s[a] == old_out[a] && s[b] == old_out[b]);
                } else if b == p {
                    assert(s[a] == old_out[a] && s[b] == x);
                } else if a < p {
                    assert(s[a] == old_out[a] && s[b] == old_out[b - 1]);
                } else if a == p {
                    assert(s[a] == x && s[b] == old_out[b - 1]);
                    assert(!comes_first(old_out[p as int], x, order));
                    if b - 1 > p {
                        assert(comes_first(old_out[p as int], old_out[b - 1], order));
                    }
                } else {
                    assert(s[a] == old_out[a - 1] && s[b] == old_out[b - 1]);
                }
            }
            assert(v@.subrange(0, i + 1) =~= v@.subrange(0, i as int).push(v@[i as int]));
            lemma_insert_keeps_stable(old_out, old_idx, v@, order, p as int, i as int);
        }
        i = i + 1;
    }
    proof {
        assert(v@.subrange(0, i as int) =~= v@);
    }
    out
}

/// Inserting item `i` of `v` at position `p` of a sorted arrangement of the
/// items before it, in front of the first item that must follow it, keeps
/// the arrangement stable.
proof fn lemma_insert_keeps_stable(
    out: Seq<SessionMetadata>,
    idx: Seq<int>,
    v: Seq<SessionMetadata>,
    order: ListOrder,
    p: int,
    i: int,
)
    requires
        0 <= p <= out.len(),
        0 <= i < v.len(),
        sorted_by(out, order),
        idx.len() == out.len(),
        forall|k: int| 0 <= k < out.len() ==> 0 <= #[trigger] idx[k] < i && out[k] == v[idx[k]],
        stable_arrangement(out, v, order, idx),
        p < out.len() ==> !comes_first(out[p], v[i], order),
    ensures
        ({
            let s = out.insert(p, v[i]);
            let j = idx.insert(p, i);
            &&& j.len() == s.len()
            &&& forall|k: int| 0 <= k < s.len() ==> 0 <= #[trigger] j[k] < i + 1 && s[k] == v[j[k]]
            &&& stable_arrangement(s, v, order, j)
        }),
{
    let s = out.insert(p, v[i]);
    let j = idx.insert(p, i);
    assert forall|k: int| 0 <= k < s.len() implies 0 <= #[trigger] j[k] < i + 1 && s[k] == v[j[k]] by {
        if k < p {
            assert(s[k] == out[k] && j[k] == idx[k]);
        } else if k > p {
            assert(s[k] == out[k - 1] && j[k] == idx[k - 1]);
        }
    }
    assert forall|a: int, b: int| 0 <= a < b < s.len() implies #[trigger] j[a] != #[trigger] j[b] by {
        if a != p && b != p {
            let oa = if a < p { a } else { a - 1 };
            let ob = if b < p { b } else { b - 1 };
            assert(j[a] == idx[oa] && j[b] == idx[ob]);
            assert(idx[oa] < i && idx[ob] < i);
        } else if a == p {
            assert(j[b] == idx[b - 1]);
            assert(idx[b - 1] < i);
        } else {
            assert(j[a] == idx[a]);
            assert(idx[a] < i);
        }
    }
    assert forall|a: int, b: int|
        0 <= a < b < s.len() && sort_key(#[trigger] s[a], order) == sort_key(#[trigger] s[b], order)
        implies j[a] < j[b] by {
        if a != p && b != p {
            let oa = if a < p { a } else { a - 1 };
            let ob = if b < p { b } else { b - 1 };
            assert(s[a] == out[oa] && s[b] == out[ob]);
            assert(j[a] == idx[oa] && j[b] == idx[ob]);
            assert(sort_key(out[oa], order) == sort_key(out[ob], order));
        } else if a == p {
            assert(s[b] == out[b - 1]);
            assert(!comes_first(out[p], v[i], order));
            if b - 1 > p {
                assert(comes_first(out[p], out[b - 1], order));
            }
        } else {
            assert(j[a] == idx[a]);
            assert(idx[a] < i);
        }
    }
}

/// Filters sessions by name, sorts them in the requested order and applies
/// offset and limit.
pub fn select_sessions(metas: Vec<SessionMetadata>, opts: &ListSessionOptions) -> (r: Vec<
    SessionMetadata,
>)
    ensures
        exists|order: Seq<SessionMetadata>|
            order.to_multiset() == matching(metas@, opts.name_contains).to_multiset() && sorted_by(
                order,
                opts.order,
            ) && (exists|idx: Seq<int>|
                stable_arrangement(order, matching(metas@, opts.name_contains), opts.order, idx))
                && r@ == window(order, opts.offset, opts.limit),
{
    let ghost pred = |m: SessionMetadata| name_matches(m, opts.name_contains);
    let mut kept: Vec<SessionMetadata> = Vec::new();
    let mut i: usize = 0;
    proof {
        reveal(Seq::filter);
        assert(metas@.subrange(0, 0) =~= Seq::<SessionMetadata>::empty());
    }
    while i < metas.len()
        invariant
            i <= metas@.len(),
            pred == (|m: SessionMetadata| name_matches(m, opts.name_contains)),
            kept@ == metas@.subrange(0, i as int).filter(pred),
        decreases metas.len() - i,
    {
        let m = &metas[i];
        let keep = match &opts.name_contains {
            None => true,
            Some(needle) => {
                let hay: &str = match &m.name {
                    Some(n) => n.as_str(),
                    None => "",
                };
                proof {
                    reveal_strlit("");
                    assert(hay@ == match m.name {
                        Some(s) => s@,
                        None => Seq::<char>::empty(),
                    });
                }
                let h = lowercase_text(hay);
                let n = lowercase_text(needle.as_str());
                text_contains(h.as_str(), n.as_str())
            },
        };
        proof {
            assert(metas@.subrange(0, i + 1).drop_last() =~= metas@.subrange(0, i as int));
            assert(metas@.subrange(0, i + 1).last() == metas@[i as int]);
            assert(pred(metas@[i as int]) == name_matches(metas@[i as int], opts.name_contains));
            assert(keep == pred(metas@[i as int]));
        }
        let ghost prev = kept@;
        if keep {
            kept.push(m.clone());
        }
        proof {
            reveal(Seq::filter);
            let s1 = metas@.subrange(0, i + 1);
            assert(s1.len() > 0);
            assert(s1.filter(pred) == if pred(s1.last()) {
                s1.drop_last().filter(pred).push(s1.last())
            } else {
                s1.drop_last().filter(pred)
            });
            if keep {
                assert(kept@ == prev.push(metas@[i as int]));
            }
        }
        i = i + 1;
    }
    proof {
        assert(metas@.subrange(0, i as int) =~= metas@);
    }
    let sorted = sort_sessions(kept, opts.order);
    let n = sorted.len();
    let off: usize = match opts.offset {
        Some(o) => o,
        None => 0,
    };
    let start = if off < n {
        off
    } else {
        n
    };
    let end = match opts.limit {
        Some(l) => if l < n - start {
            start + l
        } else {
            n
        },
        None => n,
    };
    let mut out: Vec<SessionMetadata> = Vec::new();
    let mut k = start;
    while k < end
        invariant
            start <= k <= end <= n,
            n == sorted@.len(),
            out@ == sorted@.subrange(start as int, k as int),
        decreases end - k,
    {
        out.push(sorted[k].clone());
        proof {
            assert(sorted@.subrange(start as int, k + 1) =~= sorted@.subrange(
                start as int,
                k as int,
            ).push(sorted@[k as int]));
        }
        k = k + 1;
    }
    proof {
        let w = window(sorted@, opts.offset, opts.limit);
        if off < n {
            let rest = sorted@.subrange(off as int, n as int);
            match opts.limit {
                Some(l) => {
                    if l < rest.len() {
                        assert(rest.subrange(0, l as int) =~= sorted@.subrange(
                            start as int,
                            end as int,
                        ));
                    } else {
                        assert(rest =~= sorted@.subrange(start as int, end as int));
                    }
                },
                None => {
                    assert(rest =~= sorted@.subrange(start as int, end as int));
                },
            }
        } else {
            assert(out@ =~= Seq::<SessionMetadata>::empty());
        }
        assert(out@ == w);
        assert(kept@ == matching(metas@, opts.name_contains));
        let idx = choose|idx: Seq<int>| stable_arrangement(sorted@, kept@, opts.order, idx);
        assert(stable_arrangement(sorted@, matching(metas@, opts.name_contains), opts.order, idx));
    }
    out
}

// ── Repository ───────────────────────────────────────────────────────────────

/// Ids of sessions are pairwise distinct and every session is a well-formed tree.
pub open spec fn repo_wf(s: Seq<StoreView>) -> bool {
    &&& forall|k: int| 0 <= k < s.len() ==> tree_wf(#[trigger] s[k].entries)
    &&& forall|a: int, b: int|
        0 <= a < s.len() && 0 <= b < s.len() && a != b ==> (#[trigger] s[a]).metadata.id@ != (
        #[trigger] s[b]).metadata.id@
}

/// Position of the (last) session with the given id, or -1.
pub open spec fn index_of_session(s: Seq<StoreView>, id: Seq<char>) -> int
    decreases s.len(),
{
    if s.len() == 0 {
        -1
    } else if s.last().metadata.id@ == id {
        s.len() - 1
    } else {
        index_of_session(s.drop_last(), id)
    }
}

/// The sessions without the one with the given id.
pub open spec fn without(s: Seq<StoreView>, id: Seq<char>) -> Seq<StoreView> {
    let k = index_of_session(s, id);
    if k < 0 {
        s
    } else {
        s.remove(k)
    }
}

/// Metadata of all sessions, in order.
pub open spec fn metas_of(s: Seq<StoreView>) -> Seq<SessionMetadata> {
    s.map_values(|v: StoreView| v.metadata)
}

/// All pairwise different.
pub open spec fn all_distinct(ids: Seq<EntryId>) -> bool {
    forall|a: int, b: int| 0 <= a < b < ids.len() ==> ids[a] != ids[b]
}

/// A root-first path: the first entry has no parent and every later one is a
/// child of its predecessor.
pub open spec fn is_root_path(p: Seq<EntryView>) -> bool {
    &&& p.len() > 0 ==> p[0].parent_id is None
    &&& forall|k: int| 0 < k < p.len() ==> #[trigger] p[k].parent_id == Some(p[k - 1].id)
}

/// The path copied under new ids, each entry a child of the one before.
pub open spec fn copied(p: Seq<EntryView>, ids: Seq<EntryId>) -> Seq<EntryView> {
    Seq::new(
        p.len(),
        |k: int|
            EntryView {
                id: ids[k],
                parent_id: if k == 0 {
                    None
                } else {
                    Some(ids[k - 1])
                },
                timestamp: p[k].timestamp,
                payload: p[k].payload,
            },
    )
}

pub proof fn lemma_index_of_session(s: Seq<StoreView>, id: Seq<char>)
    ensures
        -1 <= index_of_session(s, id) < s.len(),
        index_of_session(s, id) >= 0 ==> s[index_of_session(s, id)].metadata.id@ == id,
        index_of_session(s, id) < 0 ==> forall|k: int|
            0 <= k < s.len() ==> (#[trigger] s[k]).metadata.id@ != id,
    decreases s.len(),
{
    if s.len() > 0 {
        lemma_index_of_session(s.drop_last(), id);
        assert forall|k: int| 0 <= k < s.len() - 1 implies s.drop_last()[k] == #[trigger] s[k] by {}
    }
}

proof fn lemma_index_unique(s: Seq<StoreView>, id: Seq<char>, k: int)
    requires
        repo_wf(s),
        0 <= k < s.len(),
        s[k].metadata.id@ == id,
    ensures
        index_of_session(s, id) == k,
{
    lemma_index_of_session(s, id);
    let f = index_of_session(s, id);
    if f != k {
        assert(s[f].metadata.id@ == s[k].metadata.id@);
    }
}

/// A leaf-first chain links each entry to the next as its parent and ends
/// at a root.
proof fn lemma_chain_linked(es: Seq<EntryView>, i: int)
    requires
        chain(es, i) is Ok,
    ensures
        chain(es, i)->Ok_0.len() > 0,
        chain(es, i)->Ok_0.last().parent_id is None,
        forall|k: int|
            0 <= k < chain(es, i)->Ok_0.len() - 1 ==> #[trigger] chain(es, i)->Ok_0[k].parent_id
                == Some(chain(es, i)->Ok_0[k + 1].id),
    decreases i,
{
    match es[i].parent_id {
        None => {},
        Some(p) => {
            lemma_find_first(es, p);
            let j = find_first(es, p);
            lemma_chain_linked(es, j);
            lemma_chain_head(es, j);
            let c2 = chain(es, j)->Ok_0;
            let c = chain(es, i)->Ok_0;
            assert(c == seq![es[i]] + c2);
            assert forall|k: int| 0 <= k < c.len() - 1 implies #[trigger] c[k].parent_id == Some(
                c[k + 1].id,
            ) by {
                if k == 0 {
                    assert(c[1] == c2[0]);
                } else {
                    assert(c[k] == c2[k - 1] && c[k + 1] == c2[k]);
                }
            }
            assert(c.last() == c2.last());
        },
    }
}

/// A root path, when it exists, is root first and linked.
pub proof fn lemma_root_path_linked(es: Seq<EntryView>, id: EntryId)
    requires
        root_path(es, id) is Ok,
    ensures
        is_root_path(root_path(es, id)->Ok_0),
        root_path(es, id)->Ok_0.len() > 0,
{
    let i = find_first(es, id);
    lemma_chain_linked(es, i);
    let c = chain(es, i)->Ok_0;
    let r = root_path(es, id)->Ok_0;
    assert(r == c.reverse());
    let n = c.len();
    assert(r[0] == c[n - 1]);
    assert forall|k: int| 0 < k < r.len() implies #[trigger] r[k].parent_id == Some(r[k - 1].id) by {
        assert(r[k] == c[n - 1 - k]);
        assert(r[k - 1] == c[n - 1 - (k - 1)]);
    }
}

/// Stores the path under the given new ids in a new session with the given
/// metadata, each entry the child of the one before; the cursor moves to the
/// last copied entry. Fails when two of the new ids are equal.
pub fn copy_path(path: &Vec<SessionEntry>, ids: &Vec<EntryId>, meta: SessionMetadata) -> (r: Result<
    SessionStore,
    SessionError,
>)
    requires
        path@.len() == ids@.len(),
        is_root_path(entry_views(path@)),
    ensures
        r is Ok <==> all_distinct(ids@),
        r is Err ==> r == Err::<SessionStore, SessionError>(SessionError::ConcurrentModification),
        r matches Ok(s) ==> s.wf() && s@.entries == copied(entry_views(path@), ids@)
            && s@.metadata == (SessionMetadata {
            updated_at: s@.metadata.updated_at,
            active_cursor: if path@.len() > 0 {
                Some(ids@[path@.len() - 1])
            } else {
                meta.active_cursor
            },
            ..meta
        }),
{
    let ghost pv = entry_views(path@);
    let ghost target = copied(pv, ids@);
    let ghost meta0 = meta;
    let mut store = SessionStore::new(meta);
    let mut k: usize = 0;
    proof {
        assert(store@.entries =~= target.subrange(0, 0));
    }
    while k < path.len()
        invariant
            k <= path@.len(),
            path@.len() == ids@.len(),
            pv == entry_views(path@),
            target == copied(pv, ids@),
            store.wf(),
            store@.entries == target.subrange(0, k as int),
            store@.metadata == (SessionMetadata { updated_at: store@.metadata.updated_at, ..meta0 }),
            forall|a: int, b: int| 0 <= a < b < k ==> ids@[a] != ids@[b],
        decreases path.len() - k,
    {
        let parent = if k == 0 {
            None
        } else {
            Some(ids[k - 1])
        };
        let e = SessionEntry {
            id: ids[k],
            parent_id: parent,
            timestamp: path[k].timestamp,
            payload: path[k].payload.clone(),
        };
        let ghost es = store@.entries;
        proof {
            assert(pv[k as int] == path@[k as int]@);
            assert(e@ == target[k as int]);
            lemma_find_first(es, ids@[k as int]);
            let fresh = forall|a: int| 0 <= a < k ==> ids@[a] != ids@[k as int];
            if fresh {
                assert forall|j: int| 0 <= j < es.len() implies #[trigger] es[j].parent_id != Some(
                    ids@[k as int],
                ) by {
                    assert(es[j] == target[j]);
                }
                assert(!crate::store::has_child(es, ids@[k as int]));
                if k > 0 {
                    assert(ids@[k - 1] != ids@[k as int]);
                }
                assert(crate::store::can_store(es, e@));
            } else {
                let a = choose|a: int| 0 <= a < k && ids@[a] == ids@[k as int];
                assert(es[a] == target[a]);
                assert(!crate::store::can_store(es, e@));
            }
        }
        match store.append_entry(e) {
            Ok(()) => {},
            Err(err) => {
                proof {
                    let a = choose|a: int| 0 <= a < k && ids@[a] == ids@[k as int];
                    assert(!all_distinct(ids@));
                }
                return Err(err);
            },
        }
        proof {
            assert(target.subrange(0, k + 1) =~= target.subrange(0, k as int).push(
                target[k as int],
            ));
        }
        k = k + 1;
    }
    proof {
        assert(target.subrange(0, k as int) =~= target);
    }
    if k > 0 {
        store.set_active_cursor(ids[k - 1]);
    }
    Ok(store)
}

/// Repository of sessions held in memory.
#[derive(Debug)]
pub struct InMemorySessionRepo {
    sessions: Vec<SessionStore>,
}

impl View for InMemorySessionRepo {
    type V = Seq<StoreView>;

    closed spec fn view(&self) -> Seq<StoreView> {
        self.sessions@.map_values(|s: SessionStore| s@)
    }
}

impl Default for InMemorySessionRepo {
    /// An empty repository.
    fn default() -> (r: InMemorySessionRepo)
        ensures
            r.wf(),
            r@.len() == 0,
    {
        InMemorySessionRepo::new()
    }
}

impl InMemorySessionRepo {
    /// Ids are distinct and every session is well formed.
    pub open spec fn wf(&self) -> bool {
        repo_wf(self@)
    }

    /// An empty repository.
    pub fn new() -> (r: InMemorySessionRepo)
        ensures
            r.wf(),
            r@.len() == 0,
    {
        let r = InMemorySessionRepo { sessions: Vec::new() };
        proof {
            assert(r@ =~= Seq::<StoreView>::empty());
        }
        r
    }

    /// Position of the session with the given id.
    fn position(&self, id: &str) -> (r: Option<usize>)
        requires
            self.wf(),
        ensures
            match r {
                Some(k) => k == index_of_session(self@, id@) && k < self@.len(),
                None => index_of_session(self@, id@) < 0,
            },
    {
        let t = String::from_str(id);
        let mut i: usize = 0;
        while i < self.sessions.len()
            invariant
                i <= self.sessions@.len(),
                self.wf(),
                self@.len() == self.sessions@.len(),
                t@ == id@,
                forall|k: int| 0 <= k < i ==> (#[trigger] self@[k]).metadata.id@ != id@,
            decreases self.sessions.len() - i,
        {
            let sid = self.sessions[i].session_id();
            if *sid == t {
                proof {
                    assert(self@[i as int] == self.sessions@[i as int]@);
                    lemma_index_unique(self@, id@, i as int);
                }
                return Some(i);
            }
            proof {
                assert(self@[i as int] == self.sessions@[i as int]@);
            }
            i = i + 1;
        }
        proof {
            lemma_index_of_session(self@, id@);
            if index_of_session(self@, id@) >= 0 {
                let f = index_of_session(self@, id@);
                assert(self@[f].metadata.id@ == id@);
            }
        }
        None
    }

    /// Stores a session, replacing the one with the same id if there is one.
    pub fn save(&mut self, store: SessionStore)
        requires
            old(self).wf(),
            store.wf(),
        ensures
            final(self).wf(),
            final(self)@ == without(old(self)@, store@.metadata.id@).push(store@),
    {
        let ghost s0 = self@;
        let ghost id = store@.metadata.id@;
        let found = self.position(store.session_id().as_str());
        proof {
            lemma_index_of_session(s0, id);
        }
        match found {
            Some(k) => {
                let ghost before = self.sessions@;
                self.sessions.remove(k);
                proof {
                    assert(self@ =~= s0.remove(k as int));
                }
            },
            None => {},
        }
        let ghost mid = self@;
        proof {
            assert(mid == without(s0, id));
            assert forall|k: int| 0 <= k < mid.len() implies (#[trigger] mid[k]).metadata.id@
                != id by {
                let f = index_of_session(s0, id);
                if f >= 0 {
                    if k < f {
                        assert(mid[k] == s0[k]);
                    } else {
                        assert(mid[k] == s0[k + 1]);
                    }
                } else {
                    assert(mid[k] == s0[k]);
                }
            }
        }
        self.sessions.push(store);
        proof {
            assert(self@ =~= mid.push(store@));
            let s1 = self@;
            let f = index_of_session(s0, id);
            assert forall|k: int| 0 <= k < mid.len() implies tree_wf(#[trigger] mid[k].entries) by {
                if f >= 0 {
                    if k < f {
                        assert(mid[k] == s0[k]);
                    } else {
                        assert(mid[k] == s0[k + 1]);
                    }
                } else {
                    assert(mid[k] == s0[k]);
                }
            }
            assert forall|a: int, b: int|
                0 <= a < mid.len() && 0 <= b < mid.len() && a != b implies (#[trigger] mid[a]).metadata.id@
                != (#[trigger] mid[b]).metadata.id@ by {
                if f >= 0 {
                    let a0 = if a < f {
                        a
                    } else {
                        a + 1
                    };
                    let b0 = if b < f {
                        b
                    } else {
                        b + 1
                    };
                    assert(mid[a] == s0[a0] && mid[b] == s0[b0]);
                } else {
                    assert(mid[a] == s0[a] && mid[b] == s0[b]);
                }
            }
            assert forall|k: int| 0 <= k < s1.len() implies tree_wf(#[trigger] s1[k].entries) by {
                if k < mid.len() {
                    assert(s1[k] == mid[k]);
                }
            }
            assert forall|a: int, b: int|
                0 <= a < s1.len() && 0 <= b < s1.len() && a != b implies (#[trigger] s1[a]).metadata.id@
                != (#[trigger] s1[b]).metadata.id@ by {
                if a < mid.len() && b < mid.len() {
                    assert(s1[a] == mid[a] && s1[b] == mid[b]);
                } else if a < mid.len() {
                    assert(s1[a] == mid[a]);
                } else {
                    assert(s1[b] == mid[b]);
                }
            }
        }
    }

    /// Creates an empty session with a new time-ordered id, the given name and
    /// initial model, and created and updated times both now; returns a copy
    /// of it.
    pub fn create(&mut self, opts: CreateSessionOptions) -> (r: SessionStore)
        requires
            old(self).wf(),
        ensures
            final(self).wf(),
            r.wf(),
            r@.entries.len() == 0,
            r@.metadata.name == opts.name,
            r@.metadata.model == opts.initial_model,
            r@.metadata.active_cursor is None,
            r@.metadata.parent_session_path is None,
            r@.metadata.created_at == r@.metadata.updated_at,
            exists|v: u128| r@.metadata.id@ == uuid_text(v as nat),
            final(self)@ == without(old(self)@, r@.metadata.id@).push(r@),
    {
        let v = EntryId::new().0;
        let id = uuid_string(v);
        let now = now_millis();
        let meta = SessionMetadata {
            id,
            name: opts.name,
            created_at: now,
            updated_at: now,
            model: opts.initial_model,
            active_cursor: None,
            parent_session_path: None,
        };
        let store = SessionStore::new(meta);
        let copy = store.clone();
        self.save(store);
        copy
    }

    /// The session with the given id.
    pub fn open(&self, id: &str) -> (r: Result<&SessionStore, SessionError>)
        requires
            self.wf(),
        ensures
            match r {
                Ok(s) => index_of_session(self@, id@) >= 0 && s@ == self@[index_of_session(
                    self@,
                    id@,
                )] && s.wf(),
                Err(e) => index_of_session(self@, id@) < 0 && (e matches SessionError::SessionNotFound(
                    m,
                ) && m@ == id@),
            },
    {
        match self.position(id) {
            Some(k) => {
                proof {
                    assert(self@[k as int] == self.sessions@[k as int]@);
                }
                Ok(&self.sessions[k])
            },
            None => Err(SessionError::SessionNotFound(String::from_str(id))),
        }
    }

    /// Metadata of the sessions whose name contains the requested text, in
    /// the requested order, after the offset and up to the limit.
    pub fn list(&self, opts: &ListSessionOptions) -> (r: Vec<SessionMetadata>)
        requires
            self.wf(),
        ensures
            exists|order: Seq<SessionMetadata>|
                order.to_multiset() == matching(metas_of(self@), opts.name_contains).to_multiset()
                    && sorted_by(order, opts.order) && r@ == window(
                    order,
                    opts.offset,
                    opts.limit,
                ),
    {
        let mut metas: Vec<SessionMetadata> = Vec::new();
        let mut i: usize = 0;
        while i < self.sessions.len()
            invariant
                i <= self.sessions@.len(),
                self@.len() == self.sessions@.len(),
                metas@ == metas_of(self@).subrange(0, i as int),
            decreases self.sessions.len() - i,
        {
            let m = self.sessions[i].metadata();
            proof {
                assert(self@[i as int] == self.sessions@[i as int]@);
                assert(metas_of(self@).subrange(0, i + 1) =~= metas_of(self@).subrange(
                    0,
                    i as int,
                ).push(m));
            }
            metas.push(m);
            i = i + 1;
        }
        proof {
            assert(metas_of(self@).subrange(0, i as int) =~= metas_of(self@));
        }
        select_sessions(metas, opts)
    }

    /// Deletes the session with the given id.
    pub fn delete(&mut self, id: &str) -> (r: Result<(), SessionError>)
        requires
            old(self).wf(),
        ensures
            final(self).wf(),
            r is Err <==> index_of_session(old(self)@, id@) < 0,
            r matches Err(e) ==> (e matches SessionError::SessionNotFound(m) && m@ == id@),
            final(self)@ == without(old(self)@, id@),
    {
        let ghost s0 = self@;
        match self.position(id) {
            Some(k) => {
                self.sessions.remove(k);
                proof {
                    assert(self@ =~= s0.remove(k as int));
                    let s1 = self@;
                    assert forall|j: int| 0 <= j < s1.len() implies tree_wf(#[trigger] s1[j].entries) by {
                        if j < k {
                            assert(s1[j] == s0[j]);
                        } else {
                            assert(s1[j] == s0[j + 1]);
                        }
                    }
                    assert forall|a: int, b: int|
                        0 <= a < s1.len() && 0 <= b < s1.len() && a != b implies (#[trigger] s1[a]).metadata.id@
                        != (#[trigger] s1[b]).metadata.id@ by {
                        let a0 = if a < k {
                            a
                        } else {
                            a + 1
                        };
                        let b0 = if b < k {
                            b
                        } else {
                            b + 1
                        };
                        assert(s1[a] == s0[a0] && s1[b] == s0[b0]);
                    }
                }
                Ok(())
            },
            None => Err(SessionError::SessionNotFound(String::from_str(id))),
        }
    }

    /// Copies the root path up to `from_entry` of the source session into a
    /// new session under fresh ids (each entry the child of the one before,
    /// the cursor on the last). The new session records the source as its
    /// parent only when entries are not copied. Returns a copy of it.
    pub fn fork(&mut self, source_id: &str, from_entry: EntryId, opts: ForkOptions) -> (r: Result<
        SessionStore,
        SessionError,
    >)
        requires
            old(self).wf(),
        ensures
            final(self).wf(),
            index_of_session(old(self)@, source_id@) < 0 ==> (r matches Err(
                SessionError::SessionNotFound(m),
            ) && m@ == source_id@),
            index_of_session(old(self)@, source_id@) >= 0 && root_path(
                old(self)@[index_of_session(old(self)@, source_id@)].entries,
                from_entry,
            ) is Err ==> r == Err::<SessionStore, SessionError>(
                SessionError::EntryNotFound(
                    root_path(
                        old(self)@[index_of_session(old(self)@, source_id@)].entries,
                        from_entry,
                    )->Err_0,
                ),
            ),
            index_of_session(old(self)@, source_id@) >= 0 && root_path(
                old(self)@[index_of_session(old(self)@, source_id@)].entries,
                from_entry,
            ) is Ok && r is Err ==> r == Err::<SessionStore, SessionError>(
                SessionError::ConcurrentModification,
            ),
            r is Err ==> final(self)@ == old(self)@,
            r matches Ok(s) ==> {
                let p = root_path(
                    old(self)@[index_of_session(old(self)@, source_id@)].entries,
                    from_entry,
                )->Ok_0;
                &&& index_of_session(old(self)@, source_id@) >= 0
                &&& s.wf()
                &&& s@.entries == copied(p, s@.entries.map_values(|e: EntryView| e.id))
                &&& s@.metadata.name == opts.name
                &&& s@.metadata.model is None
                &&& s@.metadata.active_cursor == Some(s@.entries.last().id)
                &&& (match s@.metadata.parent_session_path {
                    Some(q) => !opts.copy_entries && q@ == source_id@,
                    None => opts.copy_entries,
                })
                &&& exists|v: u128| s@.metadata.id@ == uuid_text(v as nat)
                &&& final(self)@ == without(old(self)@, s@.metadata.id@).push(s@)
            },
    {
        let k = match self.position(source_id) {
            Some(k) => k,
            None => {
                return Err(SessionError::SessionNotFound(String::from_str(source_id)));
            },
        };
        proof {
            assert(self@[k as int] == self.sessions@[k as int]@);
        }
        let path = match self.sessions[k].path_to_root(from_entry) {
            Ok(p) => p,
            Err(e) => {
                return Err(e);
            },
        };
        let ghost pv = entry_views(path@);
        proof {
            lemma_root_path_linked(self@[k as int].entries, from_entry);
        }
        let mut ids: Vec<EntryId> = Vec::new();
        let mut i: usize = 0;
        while i < path.len()
            invariant
                i <= path@.len(),
                ids@.len() == i,
            decreases path.len() - i,
        {
            ids.push(EntryId::new());
            i = i + 1;
        }
        let v = EntryId::new().0;
        let new_id = uuid_string(v);
        let now = now_millis();
        let meta = SessionMetadata {
            id: new_id,
            name: opts.name,
            created_at: now,
            updated_at: now,
            model: None,
            active_cursor: None,
            parent_session_path: if !opts.copy_entries {
                Some(String::from_str(source_id))
            } else {
                None
            },
        };
        let store = match copy_path(&path, &ids, meta) {
            Ok(s) => s,
            Err(e) => {
                return Err(e);
            },
        };
        let copy = store.clone();
        proof {
            let es = copy@.entries;
            assert(es.map_values(|e: EntryView| e.id) =~= ids@);
        }
        self.save(store);
        Ok(copy)
    }
}

/// A session that was just stored (created, saved or forked) is the one
/// found under its id.
pub proof fn law_stored_session_is_found(s: Seq<StoreView>, r: StoreView)
    ensures
        ({
            let t = without(s, r.metadata.id@).push(r);
            index_of_session(t, r.metadata.id@) == t.len() - 1 && t[t.len() - 1] == r
        }),
{
}

/// After a delete, no session has the deleted id.
pub proof fn law_deleted_session_is_gone(s: Seq<StoreView>, id: Seq<char>)
    requires
        repo_wf(s),
    ensures
        index_of_session(without(s, id), id) < 0,
{
    lemma_index_of_session(s, id);
    let k = index_of_session(s, id);
    let t = without(s, id);
    lemma_index_of_session(t, id);
    if index_of_session(t, id) >= 0 {
        let j = index_of_session(t, id);
        if k >= 0 {
            let j0 = if j < k {
                j
            } else {
                j + 1
            };
            assert(t[j] == s[j0]);
            assert(s[j0].metadata.id@ == s[k].metadata.id@);
        } else {
            assert(t[j] == s[j]);
        }
    }
}

/// Deleting a session leaves every other session as it was.
pub proof fn law_delete_keeps_others(s: Seq<StoreView>, id: Seq<char>, other: Seq<char>)
    requires
        repo_wf(s),
        other != id,
        index_of_session(s, other) >= 0,
    ensures
        index_of_session(without(s, id), other) >= 0,
        without(s, id)[index_of_session(without(s, id), other)] == s[index_of_session(s, other)],
{
    lemma_index_of_session(s, id);
    lemma_index_of_session(s, other);
    let k = index_of_session(s, id);
    let o = index_of_session(s, other);
    let t = without(s, id);
    let o2 = if k >= 0 && o > k {
        o - 1
    } else {
        o
    };
    assert(t[o2] == s[o]);
    assert(repo_wf(t)) by {
        assert forall|a: int, b: int|
            0 <= a < t.len() && 0 <= b < t.len() && a != b implies (#[trigger] t[a]).metadata.id@
            != (#[trigger] t[b]).metadata.id@ by {
            if k >= 0 {
                let a0 = if a < k {
                    a
                } else {
                    a + 1
                };
                let b0 = if b < k {
                    b
                } else {
                    b + 1
                };
                assert(t[a] == s[a0] && t[b] == s[b0]);
            } else {
                assert(t[a] == s[a] && t[b] == s[b]);
            }
        }
        assert forall|j: int| 0 <= j < t.len() implies tree_wf(#[trigger] t[j].entries) by {
            if k >= 0 {
                if j < k {
                    assert(t[j] == s[j]);
                } else {
                    assert(t[j] == s[j + 1]);
                }
            } else {
                assert(t[j] == s[j]);
            }
        }
    }
    lemma_index_unique(t, other, o2);
}

} // verus!
