//! Properties of the session tree that span several operations: what an
//! append does to the active path and to the built context, what a branch
//! switch leaves untouched, and what a branch deletion keeps.
use vstd::prelude::*;
use crate::session::{
    build_context_spec, collect_messages, context_start, find_first, last_compaction, EntryView,
    PayloadView,
};
use crate::store::{
    can_store, chain, chain_from, lemma_chain_push, lemma_find_first, lemma_find_first_push,
    remove_ids, root_path, tree_wf,
};
use crate::tree::{active_path, del_chain, delete_set};
use crate::types::{EntryId, MessageView};

verus! {

proof fn lemma_reverse_cons(e: EntryView, c: Seq<EntryView>)
    ensures
        (seq![e] + c).reverse() =~= c.reverse().push(e),
{
    let l = seq![e] + c;
    assert forall|t: int| 0 <= t < l.len() implies #[trigger] l.reverse()[t] == c.reverse().push(
        e,
    )[t] by {
        if t < c.len() {
            assert(l.reverse()[t] == l[l.len() - 1 - t]);
            assert(l[l.len() - 1 - t] == c[c.len() - 1 - t]);
        } else {
            assert(l.reverse()[t] == l[0]);
        }
    }
}

/// Appending an entry under the cursor extends the active path by exactly
/// that entry: the path to the new entry is the old active path followed by
/// it. (This covers a fork too, whose branch point hangs under the fork
/// entry.)
pub proof fn law_append_extends_active_path(
    es: Seq<EntryView>,
    cursor: Option<EntryId>,
    e: EntryView,
)
    requires
        tree_wf(es),
        can_store(es, e),
        e.parent_id == cursor,
        active_path(es, cursor) is Ok,
    ensures
        active_path(es.push(e), Some(e.id)) == Ok::<Seq<EntryView>, EntryId>(
            active_path(es, cursor)->Ok_0.push(e),
        ),
{
    let es2 = es.push(e);
    let n = es.len() as int;
    lemma_find_first_push(es, e, e.id);
    lemma_find_first(es, e.id);
    assert(find_first(es2, e.id) == n);
    assert(es2[n] == e);
    match cursor {
        None => {
            assert(chain(es2, n) == Ok::<Seq<EntryView>, EntryId>(seq![e]));
            assert(seq![e].reverse() =~= Seq::<EntryView>::empty().push(e));
        },
        Some(c) => {
            lemma_find_first_push(es, e, c);
            lemma_find_first(es, c);
            let j = find_first(es, c);
            assert(j >= 0);
            assert(find_first(es2, c) == j);
            lemma_chain_push(es, e, j);
            let cj = chain(es, j)->Ok_0;
            assert(chain(es2, n) == Ok::<Seq<EntryView>, EntryId>(seq![e] + cj));
            lemma_reverse_cons(e, cj);
        },
    }
}

/// Appending a message under the active cursor adds exactly that message at
/// the end of the built context and leaves the model, thinking level and
/// tool list as they were. The one exception is an appended entry whose id
/// is the first kept entry of the path's last compaction while that entry is
/// missing from the path.
pub proof fn law_append_message_extends_context(p: Seq<EntryView>, e: EntryView, m: MessageView)
    requires
        e.payload == PayloadView::Message(m),
        match last_compaction(p) {
            Some(c) => e.id != c.first_kept_entry || find_first(p, c.first_kept_entry) >= 0,
            None => true,
        },
    ensures
        build_context_spec(p.push(e)).messages == build_context_spec(p).messages.push(m),
        build_context_spec(p.push(e)).last_model == build_context_spec(p).last_model,
        build_context_spec(p.push(e)).last_thinking_level == build_context_spec(
            p,
        ).last_thinking_level,
        build_context_spec(p.push(e)).last_active_tools == build_context_spec(
            p,
        ).last_active_tools,
{
    let p2 = p.push(e);
    assert(p2.drop_last() =~= p);
    assert(last_compaction(p2) == last_compaction(p));
    match last_compaction(p) {
        Some(c) => {
            lemma_find_first_push(p, e, c.first_kept_entry);
            lemma_find_first(p, c.first_kept_entry);
        },
        None => {},
    }
    let s = context_start(p);
    assert(context_start(p2) == s);
    assert(0 <= s <= p.len());
    let tail = p.subrange(s, p.len() as int);
    let tail2 = p2.subrange(s, p2.len() as int);
    assert(tail2.drop_last() =~= tail);
    assert(tail2.last() == e);
    assert(collect_messages(tail2) == collect_messages(tail).push(m));
    let head = match last_compaction(p) {
        Some(c) => seq![c.summary_message],
        None => Seq::<MessageView>::empty(),
    };
    assert(head + collect_messages(tail).push(m) =~= (head + collect_messages(tail)).push(m));
}

/// Appending a configuration change makes it the one the built context
/// reports: the last change wins. A thinking-level change sets the last
/// thinking level, a model change the last model, an active-tools change the
/// last tool list; the messages and the other two settings stay as they
/// were. (The exception is the one of the message law: an appended entry
/// whose id is the first kept entry of the path's last compaction while that
/// entry is missing from the path.)
pub proof fn law_appended_setting_change_wins(p: Seq<EntryView>, e: EntryView)
    requires
        e.payload is ThinkingLevelChange || e.payload is ModelChange || e.payload is ActiveToolsChange,
        match last_compaction(p) {
            Some(c) => e.id != c.first_kept_entry || find_first(p, c.first_kept_entry) >= 0,
            None => true,
        },
    ensures
        build_context_spec(p.push(e)).messages == build_context_spec(p).messages,
        e.payload is ThinkingLevelChange ==> build_context_spec(p.push(e)).last_thinking_level == Some(
            e.payload->ThinkingLevelChange_to,
        ) && build_context_spec(p.push(e)).last_model == build_context_spec(p).last_model
            && build_context_spec(p.push(e)).last_active_tools == build_context_spec(
            p,
        ).last_active_tools,
        e.payload is ModelChange ==> build_context_spec(p.push(e)).last_model == Some(
            e.payload->ModelChange_to,
        ) && build_context_spec(p.push(e)).last_thinking_level == build_context_spec(
            p,
        ).last_thinking_level && build_context_spec(p.push(e)).last_active_tools
            == build_context_spec(p).last_active_tools,
        e.payload is ActiveToolsChange ==> build_context_spec(p.push(e)).last_active_tools == Some(
            e.payload->ActiveToolsChange_active,
        ) && build_context_spec(p.push(e)).last_model == build_context_spec(p).last_model
            && build_context_spec(p.push(e)).last_thinking_level == build_context_spec(
            p,
        ).last_thinking_level,
{
    let p2 = p.push(e);
    assert(p2.drop_last() =~= p);
    assert(last_compaction(p2) == last_compaction(p));
    match last_compaction(p) {
        Some(c) => {
            lemma_find_first_push(p, e, c.first_kept_entry);
            lemma_find_first(p, c.first_kept_entry);
        },
        None => {},
    }
    let s = context_start(p);
    assert(context_start(p2) == s);
    assert(0 <= s <= p.len());
    let tail = p.subrange(s, p.len() as int);
    let tail2 = p2.subrange(s, p2.len() as int);
    assert(tail2.drop_last() =~= tail);
    assert(tail2.last() == e);
    assert(collect_messages(tail2) == collect_messages(tail));
}

/// Recording a branch switch (a fresh entry) leaves the path of every other
/// id as it was; in particular the target's path is what the cursor now
/// shows.
pub proof fn law_branch_switch_keeps_target_path(
    es: Seq<EntryView>,
    s: EntryView,
    target: EntryId,
)
    requires
        tree_wf(es),
        can_store(es, s),
        target != s.id,
    ensures
        root_path(es.push(s), target) == root_path(es, target),
{
    let es2 = es.push(s);
    lemma_find_first_push(es, s, target);
    lemma_find_first(es, target);
    let i = find_first(es, target);
    if i >= 0 {
        lemma_chain_push(es, s, i);
    }
    assert(chain_from(es2, target) == chain_from(es, target));
}

proof fn lemma_del_chain_positions(es: Seq<EntryView>, i: int)
    requires
        tree_wf(es),
        0 <= i < es.len(),
        del_chain(es, i) is Ok,
    ensures
        ({
            let d = del_chain(es, i)->Ok_0;
            let top = find_first(es, d.last());
            &&& d.len() >= 1
            &&& d[0] == es[i].id
            &&& 0 <= top <= i
            &&& es[top].id == d.last()
            &&& forall|t: int|
                0 <= t < d.len() ==> top <= #[trigger] find_first(es, d[t]) <= i
        }),
    decreases i,
{
    lemma_find_first(es, es[i].id);
    crate::store::lemma_find_first_at(es, i);
    let d = del_chain(es, i)->Ok_0;
    match es[i].parent_id {
        None => {},
        Some(p) => {
            if crate::store::children_of(es, p).len() > 1 {
            } else {
                let j = find_first(es, p);
                lemma_find_first(es, p);
                assert(0 <= j < i);
                lemma_del_chain_positions(es, j);
                let d2 = del_chain(es, j)->Ok_0;
                assert(d == seq![es[i].id] + d2);
                assert(d.last() == d2.last());
                assert forall|t: int| 0 <= t < d.len() implies find_first(es, d.last()) <= #[trigger] find_first(
                    es,
                    d[t],
                ) <= i by {
                    if t > 0 {
                        assert(d[t] == d2[t - 1]);
                    }
                }
            }
        },
    }
}

/// Deleting a branch removes exactly the listed entries: none of them can
/// be found afterwards, every other entry stays, and the parent of the
/// topmost deleted entry (the shared ancestor, where the cursor goes when it
/// stood on a deleted entry) is never among them.
pub proof fn law_delete_branch_keeps_shared_ancestor(es: Seq<EntryView>, leaf: EntryId)
    requires
        tree_wf(es),
        delete_set(es, leaf) is Ok,
    ensures
        ({
            let d = delete_set(es, leaf)->Ok_0;
            let top = find_first(es, d.last());
            let rest = remove_ids(es, d);
            &&& d.len() >= 1 && d[0] == leaf
            &&& 0 <= top < es.len()
            &&& forall|id: EntryId| #[trigger] d.contains(id) ==> find_first(rest, id) < 0
            &&& forall|x: EntryView|
                es.contains(x) && !d.contains(x.id) ==> #[trigger] rest.contains(x)
            &&& match es[top].parent_id {
                Some(p) => !d.contains(p),
                None => true,
            }
        }),
{
    let i = find_first(es, leaf);
    lemma_find_first(es, leaf);
    lemma_del_chain_positions(es, i);
    let d = delete_set(es, leaf)->Ok_0;
    let top = find_first(es, d.last());
    let rest = remove_ids(es, d);
    crate::store::lemma_remove_ids_subset(es, d);
    assert forall|id: EntryId| #[trigger] d.contains(id) implies find_first(rest, id) < 0 by {
        lemma_find_first(rest, id);
        let f = find_first(rest, id);
        if f >= 0 {
            assert(rest.contains(rest[f]));
        }
    }
    match es[top].parent_id {
        Some(p) => {
            if d.contains(p) {
                let t = choose|t: int| 0 <= t < d.len() && d[t] == p;
                assert(top <= find_first(es, d[t]));
                lemma_find_first(es, p);
                let k = find_first(es, p);
                assert(es[top].parent_id == Some(es[k].id));
                assert(k < top);
            }
        },
        None => {},
    }
}

} // verus!
