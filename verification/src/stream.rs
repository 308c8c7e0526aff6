//! Accumulation of one streamed model reply: text, reasoning and tool-call
//! blocks by index, the events each provider event gives, and the final
//! content ordered by block index.
use vstd::prelude::*;
use crate::events::{
    convert_stop_reason, convert_usage, stop_reason_of, AgentEvent, ContentKind, ProviderEvent,
    ProviderStop, ProviderUsage,
};
use crate::text::push_str;
use crate::types::{AssistantMessage, ContentBlock, StopReason, TokenUsage};

verus! {

/// The kind of a started block.
#[derive(Clone, Copy, PartialEq, Eq, Structural, Debug)]
pub enum BlockKind {
    Text,
    Reasoning,
    Tool,
}

/// The compact text of the JSON value a text parses to (`null` when it does
/// not parse), as `serde_json` writes it.
pub uninterp spec fn json_text_of(text: Seq<char>) -> Seq<char>;

/// Re-serializes JSON text through `serde_json::Value` (parse, falling back
/// to null, then `to_string`); the result is named, not described.
#[verifier::external_body]
fn normalize_json(text: &str) -> (r: String)
    ensures
        r@ == json_text_of(text@),
{
    serde_json::from_str::<serde_json::Value>(text).unwrap_or(serde_json::Value::Null).to_string()
}

/// Position of the first entry with key `k`, or -1.
pub open spec fn key_pos<V>(v: Seq<(usize, V)>, k: usize) -> int
    decreases v.len(),
{
    if v.len() == 0 {
        -1
    } else {
        let r = key_pos(v.drop_last(), k);
        if r >= 0 {
            r
        } else if v.last().0 == k {
            v.len() - 1
        } else {
            -1
        }
    }
}

/// The value stored under `k`.
pub open spec fn value_at<V>(v: Seq<(usize, V)>, k: usize) -> Option<V> {
    let p = key_pos(v, k);
    if p >= 0 {
        Some(v[p].1)
    } else {
        None
    }
}

/// The map with `k` set to `x` (in place when present).
pub open spec fn set_key<V>(v: Seq<(usize, V)>, k: usize, x: V) -> Seq<(usize, V)> {
    let p = key_pos(v, k);
    if p >= 0 {
        v.update(p, (k, x))
    } else {
        v.push((k, x))
    }
}

/// A content block as plain values.
pub enum BlockSpec {
    Text(Seq<char>),
    Thinking(Seq<char>),
    ToolUse(Seq<char>, Seq<char>, Seq<char>),
}

/// The plain form of a content block (images and signed reasoning have none).
pub open spec fn block_spec_of(b: ContentBlock) -> Option<BlockSpec> {
    match b {
        ContentBlock::Text { text } => Some(BlockSpec::Text(text@)),
        ContentBlock::Thinking { thinking, signature } => if signature is None {
            Some(BlockSpec::Thinking(thinking@))
        } else {
            None
        },
        ContentBlock::ToolUse { id, name, input } => Some(BlockSpec::ToolUse(id@, name@, input@)),
        ContentBlock::Image { .. } => None,
    }
}

/// Accumulated state of one streamed reply.
pub struct StreamingState {
    /// Identifier of the reply, fixed at the start.
    pub message_id: String,
    /// The provider's model name.
    pub model: String,
    text_blocks: Vec<(usize, String)>,
    reasoning_blocks: Vec<(usize, String)>,
    tool_blocks: Vec<(usize, (String, String, String))>,
    block_order: Vec<(usize, BlockKind)>,
}

/// A tool call so far: id, name, arguments text.
pub type ToolSoFar = (Seq<char>, Seq<char>, Seq<char>);

/// Model of a [`StreamingState`].
pub struct StreamView {
    pub message_id: Seq<char>,
    pub model: Seq<char>,
    pub text: Seq<(usize, Seq<char>)>,
    pub reasoning: Seq<(usize, Seq<char>)>,
    pub tools: Seq<(usize, ToolSoFar)>,
    pub order: Seq<(usize, BlockKind)>,
}

pub open spec fn texts_view(v: Seq<(usize, String)>) -> Seq<(usize, Seq<char>)> {
    v.map_values(|p: (usize, String)| (p.0, p.1@))
}

pub open spec fn tools_view(v: Seq<(usize, (String, String, String))>) -> Seq<(usize, ToolSoFar)> {
    v.map_values(|p: (usize, (String, String, String))| (p.0, (p.1.0@, p.1.1@, p.1.2@)))
}

impl View for StreamingState {
    type V = StreamView;

    closed spec fn view(&self) -> StreamView {
        StreamView {
            message_id: self.message_id@,
            model: self.model@,
            text: texts_view(self.text_blocks@),
            reasoning: texts_view(self.reasoning_blocks@),
            tools: tools_view(self.tool_blocks@),
            order: self.block_order@,
        }
    }
}

/// Whether an earlier entry of the order (before `n`) has index `i`.
pub open spec fn seen_before(order: Seq<(usize, BlockKind)>, n: int, i: usize) -> bool {
    exists|j: int| 0 <= j < n && (#[trigger] order[j]).0 == i
}

/// The block of one order entry, if any.
pub open spec fn block_of(st: StreamView, e: (usize, BlockKind)) -> Option<BlockSpec> {
    match e.1 {
        BlockKind::Text => Some(
            BlockSpec::Text(
                match value_at(st.text, e.0) {
                    Some(t) => t,
                    None => seq![],
                },
            ),
        ),
        BlockKind::Reasoning => Some(
            BlockSpec::Thinking(
                match value_at(st.reasoning, e.0) {
                    Some(t) => t,
                    None => seq![],
                },
            ),
        ),
        BlockKind::Tool => match value_at(st.tools, e.0) {
            Some(t) => Some(BlockSpec::ToolUse(t.0, t.1, json_text_of(t.2))),
            None => None,
        },
    }
}

/// Inserts an indexed block before the first one with a larger index.
pub open spec fn insert_by_index(s: Seq<(usize, BlockSpec)>, e: (usize, BlockSpec)) -> Seq<
    (usize, BlockSpec),
>
    decreases s.len(),
{
    if s.len() == 0 {
        seq![e]
    } else if e.0 < s[0].0 {
        seq![e] + s
    } else {
        seq![s[0]] + insert_by_index(s.drop_first(), e)
    }
}

/// The blocks of the first `n` order entries: each index once (its first
/// entry), tool entries without a stored call dropped, sorted by index.
pub open spec fn indexed_blocks(st: StreamView, n: int) -> Seq<(usize, BlockSpec)>
    decreases n,
{
    if n <= 0 || n > st.order.len() {
        seq![]
    } else {
        let r = indexed_blocks(st, n - 1);
        let e = st.order[n - 1];
        if seen_before(st.order, n - 1, e.0) {
            r
        } else {
            match block_of(st, e) {
                Some(b) => insert_by_index(r, (e.0, b)),
                None => r,
            }
        }
    }
}

/// The reply's content so far, ordered by block index.
pub open spec fn final_content(st: StreamView) -> Seq<BlockSpec> {
    indexed_blocks(st, st.order.len() as int).map_values(|p: (usize, BlockSpec)| p.1)
}

/// A stored text (empty when absent) with `more` appended.
pub open spec fn appended(old: Option<Seq<char>>, more: Seq<char>) -> Seq<char> {
    let base = match old {
        Some(t) => t,
        None => seq![],
    };
    base + more
}

/// The state after a provider event.
pub open spec fn next_state(st: StreamView, ev: ProviderEvent) -> StreamView {
    match ev {
        ProviderEvent::ContentStart { index, kind } => match kind {
            ContentKind::Text => StreamView {
                text: set_key(st.text, index, seq![]),
                order: st.order.push((index, BlockKind::Text)),
                ..st
            },
            ContentKind::Reasoning => StreamView {
                reasoning: set_key(st.reasoning, index, seq![]),
                order: st.order.push((index, BlockKind::Reasoning)),
                ..st
            },
            ContentKind::ToolInvocation { id, name } => StreamView {
                tools: set_key(st.tools, index, (id@, name@, seq![])),
                order: st.order.push((index, BlockKind::Tool)),
                ..st
            },
        },
        ProviderEvent::TextDelta { index, text } => StreamView {
            text: set_key(st.text, index, appended(value_at(st.text, index), text@)),
            ..st
        },
        ProviderEvent::ReasoningDelta { index, text } => StreamView {
            reasoning: set_key(st.reasoning, index, appended(value_at(st.reasoning, index), text@)),
            ..st
        },
        ProviderEvent::ToolDelta { index, arguments } => match value_at(st.tools, index) {
            Some(t) => StreamView {
                tools: set_key(st.tools, index, (t.0, t.1, t.2 + arguments@)),
                ..st
            },
            None => st,
        },
        _ => st,
    }
}

/// The content blocks as plain values.
pub open spec fn content_view(c: Seq<ContentBlock>) -> Seq<Option<BlockSpec>> {
    c.map_values(|b: ContentBlock| block_spec_of(b))
}

/// An assistant message carrying the given content and metadata.
pub open spec fn reply_is(
    m: AssistantMessage,
    content: Seq<BlockSpec>,
    stop: Option<StopReason>,
    usage: Option<TokenUsage>,
    model: Seq<char>,
    now: i64,
) -> bool {
    &&& content_view(m.content@) == content.map_values(|b: BlockSpec| Some(b))
    &&& m.stop_reason == stop
    &&& m.timestamp == now
    &&& m.provider is None
    &&& m.api is None
    &&& m.model matches Some(x) && x@ == model
    &&& m.usage == usage
    &&& m.error_message is None
}

/// The events a provider event gives, for a state before (`st`) and after
/// (`st2`) it.
pub open spec fn events_ok(
    st: StreamView,
    st2: StreamView,
    ev: ProviderEvent,
    now: i64,
    out: Seq<AgentEvent>,
) -> bool {
    let mid = st.message_id;
    match ev {
        ProviderEvent::ContentStart { kind, .. } => match kind {
            ContentKind::ToolInvocation { id, name } => out.len() == 1 && (match out[0] {
                AgentEvent::ToolCallStart { message_id, tool_use_id, name: n } => message_id@
                    == mid && tool_use_id@ == id@ && n@ == name@,
                _ => false,
            }),
            _ => out.len() == 0,
        },
        ProviderEvent::TextDelta { text, .. } => out.len() == 2 && (match out[0] {
            AgentEvent::TextDelta { message_id, text: t } => message_id@ == mid && t@ == text@,
            _ => false,
        }) && (match out[1] {
            AgentEvent::MessageUpdate { message_id, partial } => message_id@ == mid && reply_is(
                partial,
                final_content(st2),
                None,
                None,
                st.model,
                now,
            ),
            _ => false,
        }),
        ProviderEvent::ReasoningDelta { text, .. } => out.len() == 2 && (match out[0] {
            AgentEvent::ThinkingDelta { message_id, thinking, signature } => message_id@ == mid
                && thinking@ == text@ && signature is None,
            _ => false,
        }) && (match out[1] {
            AgentEvent::MessageUpdate { message_id, partial } => message_id@ == mid && reply_is(
                partial,
                final_content(st2),
                None,
                None,
                st.model,
                now,
            ),
            _ => false,
        }),
        ProviderEvent::ToolDelta { index, arguments } => match value_at(st.tools, index) {
            Some(t) => out.len() == 1 && (match out[0] {
                AgentEvent::ToolCallArgsDelta { tool_use_id, partial_input } => tool_use_id@
                    == t.0 && partial_input@ == arguments@,
                _ => false,
            }),
            None => out.len() == 0,
        },
        ProviderEvent::ContentStop { index } => match value_at(st.tools, index) {
            Some(t) => out.len() == 1 && (match out[0] {
                AgentEvent::ToolCallEnd { tool_use_id, args } => tool_use_id@ == t.0 && args@
                    == json_text_of(t.2),
                _ => false,
            }),
            None => out.len() == 0,
        },
        ProviderEvent::MessageStop { stop_reason, usage } => out.len() == 1 && (match out[0] {
            AgentEvent::MessageEnd { message_id, message } => message_id@ == mid && reply_is(
                message,
                final_content(st),
                Some(stop_reason_of(stop_reason)),
                Some(
                    TokenUsage {
                        input_tokens: usage.input_tokens,
                        output_tokens: usage.output_tokens,
                        cache_read_tokens: usage.cached_input_tokens,
                        cache_creation_tokens: usage.cache_creation_input_tokens,
                    },
                ),
                st.model,
                now,
            ),
            _ => false,
        }),
    }
}

// ── Implementation ───────────────────────────────────────────────────────────

fn text_pos(v: &Vec<(usize, String)>, k: usize) -> (r: Option<usize>)
    ensures
        match r {
            Some(p) => key_pos(texts_view(v@), k) == p && p < v@.len(),
            None => key_pos(texts_view(v@), k) == -1,
        },
{
    let ghost tv = texts_view(v@);
    let mut i: usize = 0;
    while i < v.len()
        invariant
            i <= v@.len(),
            tv == texts_view(v@),
            key_pos(tv.subrange(0, i as int), k) == -1,
        decreases v.len() - i,
    {
        proof {
            assert(tv.subrange(0, i + 1).drop_last() =~= tv.subrange(0, i as int));
        }
        if v[i].0 == k {
            proof {
                lemma_key_pos_prefix(tv, k, (i + 1) as int);
            }
            return Some(i);
        }
        i = i + 1;
    }
    proof {
        assert(tv.subrange(0, i as int) =~= tv);
    }
    None
}

fn tool_pos(v: &Vec<(usize, (String, String, String))>, k: usize) -> (r: Option<usize>)
    ensures
        match r {
            Some(p) => key_pos(tools_view(v@), k) == p && p < v@.len(),
            None => key_pos(tools_view(v@), k) == -1,
        },
{
    let ghost tv = tools_view(v@);
    let mut i: usize = 0;
    while i < v.len()
        invariant
            i <= v@.len(),
            tv == tools_view(v@),
            key_pos(tv.subrange(0, i as int), k) == -1,
        decreases v.len() - i,
    {
        proof {
            assert(tv.subrange(0, i + 1).drop_last() =~= tv.subrange(0, i as int));
        }
        if v[i].0 == k {
            proof {
                lemma_key_pos_prefix(tv, k, (i + 1) as int);
            }
            return Some(i);
        }
        i = i + 1;
    }
    proof {
        assert(tv.subrange(0, i as int) =~= tv);
    }
    None
}

proof fn lemma_key_pos_prefix<V>(v: Seq<(usize, V)>, k: usize, n: int)
    requires
        0 < n <= v.len(),
        key_pos(v.subrange(0, n - 1), k) == -1,
        v[n - 1].0 == k,
    ensures
        key_pos(v, k) == n - 1,
    decreases v.len(),
{
    if v.len() == n {
        assert(v.drop_last() =~= v.subrange(0, n - 1));
    } else {
        assert(v.drop_last().subrange(0, n - 1) =~= v.subrange(0, n - 1));
        assert(v.drop_last()[n - 1] == v[n - 1]);
        lemma_key_pos_prefix(v.drop_last(), k, n);
    }
}

proof fn lemma_key_pos_bounds<V>(v: Seq<(usize, V)>, k: usize)
    ensures
        -1 <= key_pos(v, k) < v.len(),
        key_pos(v, k) >= 0 ==> v[key_pos(v, k)].0 == k,
    decreases v.len(),
{
    if v.len() > 0 {
        lemma_key_pos_bounds(v.drop_last(), k);
    }
}

fn set_text_exec(v: &mut Vec<(usize, String)>, k: usize, x: String)
    ensures
        texts_view(final(v)@) == set_key(texts_view(old(v)@), k, x@),
{
    let ghost xv = x@;
    match text_pos(v, k) {
        Some(p) => {
            v.set(p, (k, x));
            proof {
                assert(texts_view(v@) =~= texts_view(old(v)@).update(p as int, (k, xv)));
            }
        },
        None => {
            v.push((k, x));
            proof {
                assert(texts_view(v@) =~= texts_view(old(v)@).push((k, xv)));
            }
        },
    }
}

fn set_tool_exec(v: &mut Vec<(usize, (String, String, String))>, k: usize, x: (String, String, String))
    ensures
        tools_view(final(v)@) == set_key(tools_view(old(v)@), k, (x.0@, x.1@, x.2@)),
{
    let ghost xv = (x.0@, x.1@, x.2@);
    match tool_pos(v, k) {
        Some(p) => {
            v.set(p, (k, x));
            proof {
                assert(tools_view(v@) =~= tools_view(old(v)@).update(p as int, (k, xv)));
            }
        },
        None => {
            v.push((k, x));
            proof {
                assert(tools_view(v@) =~= tools_view(old(v)@).push((k, xv)));
            }
        },
    }
}

fn text_value(v: &Vec<(usize, String)>, k: usize) -> (r: Option<String>)
    ensures
        match r {
            Some(t) => value_at(texts_view(v@), k) == Some(t@),
            None => value_at(texts_view(v@), k) is None,
        },
{
    match text_pos(v, k) {
        Some(p) => Some(v[p].1.clone()),
        None => None,
    }
}

fn append_text(v: &mut Vec<(usize, String)>, k: usize, more: &str)
    ensures
        texts_view(final(v)@) == set_key(
            texts_view(old(v)@),
            k,
            appended(value_at(texts_view(old(v)@), k), more@),
        ),
{
    let mut t = match text_value(v, k) {
        Some(t) => t,
        None => String::new(),
    };
    push_str(&mut t, more);
    set_text_exec(v, k, t);
}

proof fn lemma_insert_by_index(s: Seq<(usize, BlockSpec)>, e: (usize, BlockSpec), p: int)
    requires
        0 <= p <= s.len(),
        forall|j: int| 0 <= j < p ==> !(e.0 < (#[trigger] s[j]).0),
        p < s.len() ==> e.0 < s[p].0,
    ensures
        insert_by_index(s, e) == s.insert(p, e),
    decreases s.len(),
{
    if s.len() == 0 {
        assert(s.insert(p, e) =~= seq![e]);
    } else if p == 0 {
        assert(s.insert(0, e) =~= seq![e] + s);
    } else {
        let t = s.drop_first();
        assert forall|j: int| 0 <= j < p - 1 implies !(e.0 < (#[trigger] t[j]).0) by {
            assert(t[j] == s[j + 1]);
        }
        if p - 1 < t.len() {
            assert(t[p - 1] == s[p]);
        }
        lemma_insert_by_index(t, e, p - 1);
        assert(seq![s[0]] + t.insert(p - 1, e) =~= s.insert(p, e));
    }
}

fn block_exec(c: &ContentBlock) -> (r: ContentBlock)
    ensures
        r == *c,
{
    c.clone()
}

impl StreamingState {
    /// A fresh state for a reply from `model`, with a new time-ordered id.
    pub fn new(model: String) -> (s: StreamingState)
        ensures
            s@.model == model@,
            s@.text.len() == 0,
            s@.reasoning.len() == 0,
            s@.tools.len() == 0,
            s@.order.len() == 0,
            exists|v: nat| s@.message_id == crate::text::uuid_text(v),
    {
        let id = crate::types::EntryId::new();
        let message_id = crate::text::uuid_string(id.0);
        let s = StreamingState {
            message_id,
            model,
            text_blocks: Vec::new(),
            reasoning_blocks: Vec::new(),
            tool_blocks: Vec::new(),
            block_order: Vec::new(),
        };
        proof {
            assert(texts_view(s.text_blocks@) =~= Seq::<(usize, Seq<char>)>::empty());
            assert(texts_view(s.reasoning_blocks@) =~= Seq::<(usize, Seq<char>)>::empty());
            assert(tools_view(s.tool_blocks@) =~= Seq::<(usize, ToolSoFar)>::empty());
        }
        s
    }

    /// The reply's content so far, ordered by block index.
    pub fn build_final_content(&self) -> (r: Vec<ContentBlock>)
        ensures
            content_view(r@) == final_content(self@).map_values(|b: BlockSpec| Some(b)),
    {
        let ghost st = self@;
        let n = self.block_order.len();
        let mut out: Vec<(usize, ContentBlock)> = Vec::new();
        let mut i: usize = 0;
        proof {
            assert(out@.map_values(|p: (usize, ContentBlock)| (p.0, block_spec_of(p.1))) =~= indexed_blocks(
                st,
                0,
            ).map_values(|p: (usize, BlockSpec)| (p.0, Some(p.1))));
        }
        while i < n
            invariant
                i <= n,
                n == self.block_order@.len(),
                st == self@,
                out@.map_values(|p: (usize, ContentBlock)| (p.0, block_spec_of(p.1)))
                    == indexed_blocks(st, i as int).map_values(
                    |p: (usize, BlockSpec)| (p.0, Some(p.1)),
                ),
            decreases n - i,
        {
            let (idx, kind) = self.block_order[i];
            let ghost e = st.order[i as int];
            // Seen before?
            let mut j: usize = 0;
            let mut seen = false;
            while j < i
                invariant
                    j <= i < n,
                    n == self.block_order@.len(),
                    st == self@,
                    idx == st.order[i as int].0,
                    seen == seen_before(st.order, j as int, idx),
                decreases i - j,
            {
                proof {
                    if seen_before(st.order, j + 1, idx) && !seen_before(st.order, j as int, idx) {
                        let w = choose|w: int| 0 <= w < j + 1 && (#[trigger] st.order[w]).0 == idx;
                        assert(w == j);
                    }
                    if seen_before(st.order, j as int, idx) {
                        let w = choose|w: int| 0 <= w < j && (#[trigger] st.order[w]).0 == idx;
                        assert(0 <= w < j + 1 && st.order[w].0 == idx);
                    }
                    if self.block_order@[j as int].0 == idx {
                        assert(st.order[j as int].0 == idx);
                    }
                }
                if self.block_order[j].0 == idx {
                    seen = true;
                }
                j = j + 1;
            }
            if !seen {
                let block: Option<ContentBlock> = match kind {
                    BlockKind::Text => {
                        let t = match text_value(&self.text_blocks, idx) {
                            Some(t) => t,
                            None => String::new(),
                        };
                        Some(ContentBlock::Text { text: t })
                    },
                    BlockKind::Reasoning => {
                        let t = match text_value(&self.reasoning_blocks, idx) {
                            Some(t) => t,
                            None => String::new(),
                        };
                        Some(ContentBlock::Thinking { thinking: t, signature: None })
                    },
                    BlockKind::Tool => match tool_pos(&self.tool_blocks, idx) {
                        Some(p) => {
                            let (id, name, args) = &self.tool_blocks[p].1;
                            let input = normalize_json(args.as_str());
                            Some(ContentBlock::ToolUse { id: id.clone(), name: name.clone(), input })
                        },
                        None => None,
                    },
                };
                proof {
                    assert(texts_view(self.text_blocks@) == st.text);
                    assert(texts_view(self.reasoning_blocks@) == st.reasoning);
                    assert(tools_view(self.tool_blocks@) == st.tools);
                }
                if let Some(b) = block {
                    let ghost bs = block_spec_of(b);
                    proof {
                        assert(bs == Some(block_of(st, e)->Some_0));
                    }
                    // Insertion point: before the first larger index.
                    let ghost ov = out@.map_values(|p: (usize, ContentBlock)| (p.0, block_spec_of(p.1)));
                    let ghost iv = indexed_blocks(st, i as int);
                    let mut q: usize = 0;
                    proof {
                        assert(ov.len() == out@.len());
                        assert(iv.len() == ov.len());
                    }
                    while q < out.len() && !(idx < out[q].0)
                        invariant
                            q <= out@.len(),
                            ov == out@.map_values(|p: (usize, ContentBlock)| (p.0, block_spec_of(p.1))),
                            ov == iv.map_values(|p: (usize, BlockSpec)| (p.0, Some(p.1))),
                            iv.len() == out@.len(),
                            forall|t: int| 0 <= t < q ==> !(idx < (#[trigger] iv[t]).0),
                        decreases out.len() - q,
                    {
                        proof {
                            assert(ov[q as int].0 == out@[q as int].0);
                            assert(iv[q as int].0 == ov[q as int].0);
                        }
                        q = q + 1;
                    }
                    proof {
                        if q < out@.len() {
                            assert(ov[q as int].0 == out@[q as int].0);
                            assert(iv[q as int].0 == ov[q as int].0);
                        }
                        lemma_insert_by_index(iv, (idx, block_of(st, e)->Some_0), q as int);
                    }
                    let ghost old_out = out@;
                    let ghost bsv = block_of(st, e)->Some_0;
                    out.insert(q, (idx, b));
                    proof {
                        assert(out@ == old_out.insert(q as int, (idx, b)));
                        assert(out@.map_values(|p: (usize, ContentBlock)| (p.0, block_spec_of(p.1)))
                            =~= ov.insert(q as int, (idx, Some(bsv))));
                        assert(iv.insert(q as int, (idx, bsv)).map_values(
                            |p: (usize, BlockSpec)| (p.0, Some(p.1)),
                        ) =~= ov.insert(q as int, (idx, Some(bsv))));
                        assert(out@.map_values(|p: (usize, ContentBlock)| (p.0, block_spec_of(p.1)))
                            =~= iv.insert(q as int, (idx, block_of(st, e)->Some_0)).map_values(
                            |p: (usize, BlockSpec)| (p.0, Some(p.1)),
                        ));
                    }
                }
            }
            i = i + 1;
        }
        let mut r: Vec<ContentBlock> = Vec::new();
        let mut k: usize = 0;
        let ghost fb = indexed_blocks(st, n as int);
        proof {
            assert(fb.len() == out@.len());
        }
        while k < out.len()
            invariant
                k <= out@.len(),
                out@.map_values(|p: (usize, ContentBlock)| (p.0, block_spec_of(p.1))) == fb.map_values(
                    |p: (usize, BlockSpec)| (p.0, Some(p.1)),
                ),
                content_view(r@) == fb.subrange(0, k as int).map_values(|p: (usize, BlockSpec)| Some(p.1)),
                fb.len() == out@.len(),
            decreases out.len() - k,
        {
            let b = block_exec(&out[k].1);
            let ghost before = r@;
            r.push(b);
            proof {
                assert(out@.map_values(|p: (usize, ContentBlock)| (p.0, block_spec_of(p.1)))[k as int]
                    == fb.map_values(|p: (usize, BlockSpec)| (p.0, Some(p.1)))[k as int]);
                assert(block_spec_of(b) == Some(fb[k as int].1));
                assert(content_view(r@) =~= content_view(before).push(block_spec_of(b)));
                assert(content_view(r@) =~= fb.subrange(0, k + 1).map_values(
                    |p: (usize, BlockSpec)| Some(p.1),
                ));
            }
            k = k + 1;
        }
        proof {
            assert(fb.subrange(0, k as int) =~= fb);
            assert(fb.map_values(|p: (usize, BlockSpec)| Some(p.1)) =~= fb.map_values(
                |p: (usize, BlockSpec)| p.1,
            ).map_values(|b: BlockSpec| Some(b)));
        }
        r
    }
}

impl StreamingState {
    /// The reply so far as an assistant message stamped `now`.
    pub fn partial_message(&self, now: i64) -> (m: AssistantMessage)
        ensures
            reply_is(m, final_content(self@), None, None, self@.model, now),
    {
        let content = self.build_final_content();
        AssistantMessage {
            content,
            stop_reason: None,
            timestamp: now,
            provider: None,
            api: None,
            model: Some(self.model.clone()),
            usage: None,
            error_message: None,
        }
    }

    /// Applies one provider event; returns the events to report, stamped
    /// `now`.
    pub fn process(&mut self, event: ProviderEvent, now: i64) -> (out: Vec<AgentEvent>)
        ensures
            final(self)@ == next_state(old(self)@, event),
            events_ok(old(self)@, final(self)@, event, now, out@),
    {
        let ghost ev = event;
        let ghost st0 = self@;
        let mid = self.message_id.clone();
        let mut out: Vec<AgentEvent> = Vec::new();
        match event {
            ProviderEvent::ContentStart { index, kind } => match kind {
                ContentKind::Text => {
                    set_text_exec(&mut self.text_blocks, index, String::new());
                    self.block_order.push((index, BlockKind::Text));
                    proof {
                        assert(self@ == next_state(st0, ev));
                    }
                },
                ContentKind::Reasoning => {
                    set_text_exec(&mut self.reasoning_blocks, index, String::new());
                    self.block_order.push((index, BlockKind::Reasoning));
                    proof {
                        assert(self@ == next_state(st0, ev));
                    }
                },
                ContentKind::ToolInvocation { id, name } => {
                    set_tool_exec(&mut self.tool_blocks, index, (id.clone(), name.clone(), String::new()));
                    self.block_order.push((index, BlockKind::Tool));
                    out.push(AgentEvent::ToolCallStart { message_id: mid, tool_use_id: id, name });
                    proof {
                        assert(self@ == next_state(st0, ev));
                    }
                },
            },
            ProviderEvent::TextDelta { index, text } => {
                append_text(&mut self.text_blocks, index, text.as_str());
                proof {
                    assert(self@ == next_state(st0, ev));
                }
                let partial = self.partial_message(now);
                out.push(AgentEvent::TextDelta { message_id: mid.clone(), text });
                out.push(AgentEvent::MessageUpdate { message_id: mid, partial });
            },
            ProviderEvent::ReasoningDelta { index, text } => {
                append_text(&mut self.reasoning_blocks, index, text.as_str());
                proof {
                    assert(self@ == next_state(st0, ev));
                }
                let partial = self.partial_message(now);
                out.push(
                    AgentEvent::ThinkingDelta {
                        message_id: mid.clone(),
                        thinking: text,
                        signature: None,
                    },
                );
                out.push(AgentEvent::MessageUpdate { message_id: mid, partial });
            },
            ProviderEvent::ToolDelta { index, arguments } => {
                match tool_pos(&self.tool_blocks, index) {
                    Some(p) => {
                        let (id, name, args) = &self.tool_blocks[p].1;
                        let id = id.clone();
                        let name = name.clone();
                        let mut args = args.clone();
                        push_str(&mut args, arguments.as_str());
                        proof {
                            lemma_key_pos_bounds(tools_view(self.tool_blocks@), index);
                        }
                        set_tool_exec(&mut self.tool_blocks, index, (id.clone(), name, args));
                        out.push(AgentEvent::ToolCallArgsDelta { tool_use_id: id, partial_input: arguments });
                        proof {
                            assert(self@ == next_state(st0, ev));
                        }
                    },
                    None => {
                        proof {
                            assert(self@ == next_state(st0, ev));
                        }
                    },
                }
            },
            ProviderEvent::ContentStop { index } => {
                match tool_pos(&self.tool_blocks, index) {
                    Some(p) => {
                        let id = self.tool_blocks[p].1.0.clone();
                        let args = normalize_json(self.tool_blocks[p].1.2.as_str());
                        out.push(AgentEvent::ToolCallEnd { tool_use_id: id, args });
                    },
                    None => {},
                }
            },
            ProviderEvent::MessageStop { stop_reason, usage } => {
                let content = self.build_final_content();
                let message = AssistantMessage {
                    content,
                    stop_reason: Some(convert_stop_reason(&stop_reason)),
                    timestamp: now,
                    provider: None,
                    api: None,
                    model: Some(self.model.clone()),
                    usage: Some(convert_usage(usage)),
                    error_message: None,
                };
                out.push(AgentEvent::MessageEnd { message_id: mid, message });
            },
        }
        out
    }
}

} // verus!
