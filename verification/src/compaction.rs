//! Compaction planning: token estimates, the choice of the cut point, the
//! file operations recorded in the compacted range, the text handed to the
//! summary model, and the assembly of the compaction result.
use vstd::prelude::*;
use vstd::string::StringSliceAdditionalSpecFns;
use vstd::utf8::encode_utf8;
use crate::chars::{join, trim};
use crate::session::{
    entry_views, find_first, CompactionEntry, CompactionEntryView, EntryView, PayloadView,
    SessionEntry, SessionEntryPayload,
};
use crate::store::lemma_find_first;
use crate::skills::byte_len;
use crate::text::{decimal, push_str, u64_text, uuid_string, uuid_text};
use crate::errors::CompactionError;
use crate::types::CompactionSummaryMessage;
use serde_json::Value;
use crate::types::{
    AgentMessage, ContentBlock, EntryId, FileOpKind, FileOperation, MessageView, ModelInfo,
};

verus! {

// ── Token estimation ─────────────────────────────────────────────────────────

/// Estimated tokens of a text: a quarter of its bytes, at least one.
pub open spec fn text_tokens(s: Seq<char>) -> nat {
    let q = byte_len(s) / 4;
    if q < 1 {
        1
    } else {
        q as nat
    }
}

/// Estimated tokens of a content block (an image counts 250).
pub open spec fn block_tokens(b: ContentBlock) -> nat {
    match b {
        ContentBlock::Text { text } => text_tokens(text@),
        ContentBlock::Image { .. } => 250,
        ContentBlock::Thinking { thinking, .. } => text_tokens(thinking@),
        ContentBlock::ToolUse { input, .. } => text_tokens(input@),
    }
}

/// Estimated tokens of a list of content blocks.
pub open spec fn blocks_tokens(bs: Seq<ContentBlock>) -> nat
    decreases bs.len(),
{
    if bs.len() == 0 {
        0
    } else {
        blocks_tokens(bs.drop_last()) + block_tokens(bs.last())
    }
}

/// Estimated tokens of a message: an assistant message with usage counts its
/// output tokens.
pub open spec fn message_tokens(m: MessageView) -> nat {
    match m {
        MessageView::User { content, .. } => blocks_tokens(content),
        MessageView::Assistant(a) => match a.usage {
            Some(u) => u.output_tokens as nat,
            None => blocks_tokens(a.content),
        },
        MessageView::ToolResult { content, .. } => blocks_tokens(content),
        MessageView::CompactionSummary { summary, .. } => text_tokens(summary@),
        MessageView::BranchSummary { summary, .. } => text_tokens(summary@),
        MessageView::Custom { data, .. } => text_tokens(data@),
    }
}

/// Estimated tokens of an entry: messages only.
pub open spec fn entry_tokens(e: EntryView) -> nat {
    match e.payload {
        PayloadView::Message(m) => message_tokens(m),
        _ => 0,
    }
}

/// Estimated tokens of a run of entries.
pub open spec fn entries_tokens(es: Seq<EntryView>) -> nat
    decreases es.len(),
{
    if es.len() == 0 {
        0
    } else {
        entries_tokens(es.drop_last()) + entry_tokens(es.last())
    }
}

/// Estimated tokens of a text.
pub fn estimate_tokens_for_text(s: &str) -> (r: usize)
    ensures
        r == text_tokens(s@),
{
    proof {
        assert(s.spec_bytes() == encode_utf8(s@));
    }
    let q = s.len() / 4;
    if q < 1 {
        1
    } else {
        q
    }
}

proof fn lemma_blocks_tokens_prefix(bs: Seq<ContentBlock>, i: int)
    requires
        0 <= i <= bs.len(),
    ensures
        blocks_tokens(bs.subrange(0, i)) <= blocks_tokens(bs),
    decreases bs.len() - i,
{
    if i < bs.len() {
        lemma_blocks_tokens_prefix(bs, i + 1);
        assert(bs.subrange(0, i + 1).drop_last() =~= bs.subrange(0, i));
    } else {
        assert(bs.subrange(0, i) =~= bs);
    }
}

/// Estimated tokens of a list of content blocks.
pub fn estimate_tokens_for_content_blocks(blocks: &[ContentBlock]) -> (r: usize)
    requires
        blocks_tokens(blocks@) <= usize::MAX,
    ensures
        r == blocks_tokens(blocks@),
{
    let mut sum: usize = 0;
    let mut i: usize = 0;
    while i < blocks.len()
        invariant
            i <= blocks@.len(),
            blocks_tokens(blocks@) <= usize::MAX,
            sum == blocks_tokens(blocks@.subrange(0, i as int)),
        decreases blocks.len() - i,
    {
        proof {
            assert(blocks@.subrange(0, i + 1).drop_last() =~= blocks@.subrange(0, i as int));
            lemma_blocks_tokens_prefix(blocks@, i + 1);
        }
        let t: usize = match &blocks[i] {
            ContentBlock::Text { text } => estimate_tokens_for_text(text.as_str()),
            ContentBlock::Image { .. } => 250,
            ContentBlock::Thinking { thinking, .. } => estimate_tokens_for_text(thinking.as_str()),
            ContentBlock::ToolUse { input, .. } => estimate_tokens_for_text(input.as_str()),
        };
        sum = sum + t;
        i = i + 1;
    }
    proof {
        assert(blocks@.subrange(0, i as int) =~= blocks@);
    }
    sum
}

/// Estimated tokens of a message.
pub fn estimate_tokens_for_message(msg: &AgentMessage) -> (r: usize)
    requires
        message_tokens(msg@) <= usize::MAX,
    ensures
        r == message_tokens(msg@),
{
    match msg {
        AgentMessage::User(u) => estimate_tokens_for_content_blocks(u.content.as_slice()),
        AgentMessage::Assistant(a) => match a.usage {
            Some(u) => u.output_tokens as usize,
            None => estimate_tokens_for_content_blocks(a.content.as_slice()),
        },
        AgentMessage::ToolResult(t) => estimate_tokens_for_content_blocks(t.content.as_slice()),
        AgentMessage::CompactionSummary(c) => estimate_tokens_for_text(c.summary.as_str()),
        AgentMessage::BranchSummary(b) => estimate_tokens_for_text(b.summary.as_str()),
        AgentMessage::Custom(c) => estimate_tokens_for_text(c.data.as_str()),
    }
}

/// Estimated tokens of a session entry; entries other than messages count 0.
pub fn estimate_tokens_for_entry(entry: &SessionEntry) -> (r: usize)
    requires
        entry_tokens(entry@) <= usize::MAX,
    ensures
        r == entry_tokens(entry@),
{
    match &entry.payload {
        SessionEntryPayload::Message(m) => estimate_tokens_for_message(m),
        _ => 0,
    }
}

pub proof fn lemma_entries_tokens_split(es: Seq<EntryView>, i: int)
    requires
        0 <= i <= es.len(),
    ensures
        entries_tokens(es) == entries_tokens(es.subrange(0, i)) + entries_tokens(
            es.subrange(i, es.len() as int),
        ),
    decreases es.len(),
{
    if i == es.len() {
        assert(es.subrange(0, i) =~= es);
        assert(es.subrange(i, es.len() as int) =~= Seq::<EntryView>::empty());
    } else {
        lemma_entries_tokens_split(es.drop_last(), i);
        assert(es.drop_last().subrange(0, i) =~= es.subrange(0, i));
        assert(es.subrange(i, es.len() as int).drop_last() =~= es.drop_last().subrange(
            i,
            es.len() - 1,
        ));
    }
}

/// Estimated tokens of entries `v[lo..hi]`.
fn sum_entry_tokens(v: &[SessionEntry], lo: usize, hi: usize) -> (r: usize)
    requires
        lo <= hi <= v@.len(),
        entries_tokens(entry_views(v@).subrange(lo as int, hi as int)) <= usize::MAX,
    ensures
        r == entries_tokens(entry_views(v@).subrange(lo as int, hi as int)),
{
    let ghost es = entry_views(v@);
    let mut sum: usize = 0;
    let mut i = lo;
    while i < hi
        invariant
            lo <= i <= hi <= v@.len(),
            es == entry_views(v@),
            entries_tokens(es.subrange(lo as int, hi as int)) <= usize::MAX,
            sum == entries_tokens(es.subrange(lo as int, i as int)),
        decreases hi - i,
    {
        proof {
            let r = es.subrange(lo as int, hi as int);
            lemma_entries_tokens_split(r, i + 1 - lo);
            assert(r.subrange(0, i + 1 - lo) =~= es.subrange(lo as int, i + 1));
            assert(es.subrange(lo as int, i + 1).drop_last() =~= es.subrange(lo as int, i as int));
            assert(es.subrange(lo as int, i + 1).last() == v@[i as int]@);
        }
        let t = estimate_tokens_for_entry(&v[i]);
        sum = sum + t;
        i = i + 1;
    }
    sum
}

// ── Cut boundaries ───────────────────────────────────────────────────────────

/// An entry where a kept region may start: a user message, a summary
/// message, or a compaction entry.
pub open spec fn valid_cut_start(e: EntryView) -> bool {
    match e.payload {
        PayloadView::Message(MessageView::User { .. }) => true,
        PayloadView::Message(MessageView::CompactionSummary { .. }) => true,
        PayloadView::Message(MessageView::BranchSummary { .. }) => true,
        PayloadView::Compaction(_) => true,
        _ => false,
    }
}

/// Whether an entry may start a kept region.
pub fn is_valid_cut_start(entry: &SessionEntry) -> (b: bool)
    ensures
        b == valid_cut_start(entry@),
{
    match &entry.payload {
        SessionEntryPayload::Message(AgentMessage::User(_)) => true,
        SessionEntryPayload::Message(AgentMessage::CompactionSummary(_)) => true,
        SessionEntryPayload::Message(AgentMessage::BranchSummary(_)) => true,
        SessionEntryPayload::Compaction(_) => true,
        _ => false,
    }
}

/// The last position at or before `i` holding a valid cut start.
pub open spec fn last_valid_at_or_before(es: Seq<EntryView>, i: int) -> Option<int>
    decreases i + 1,
{
    if i < 0 {
        None
    } else if i < es.len() && valid_cut_start(es[i]) {
        Some(i)
    } else {
        last_valid_at_or_before(es, i - 1)
    }
}

/// The nearest valid cut boundary at or before `cut` (clamped to the last
/// entry), if any.
pub open spec fn valid_cut_boundary(es: Seq<EntryView>, cut: int) -> Option<int> {
    let hi = if es.len() == 0 {
        0
    } else if cut < es.len() - 1 {
        cut
    } else {
        es.len() - 1
    };
    last_valid_at_or_before(es, hi)
}

proof fn lemma_last_valid(es: Seq<EntryView>, i: int)
    ensures
        match last_valid_at_or_before(es, i) {
            Some(k) => 0 <= k <= i && k < es.len() && valid_cut_start(es[k]),
            None => true,
        },
    decreases i + 1,
{
    if i >= 0 && !(i < es.len() && valid_cut_start(es[i])) {
        lemma_last_valid(es, i - 1);
    }
}

/// Finds the nearest index at or before `cut_relative` that is a valid turn
/// boundary.
pub fn find_valid_cut_boundary(entries: &[SessionEntry], cut_relative: usize) -> (r: Option<usize>)
    ensures
        match r {
            Some(k) => valid_cut_boundary(entry_views(entries@), cut_relative as int) == Some(
                k as int,
            ),
            None => valid_cut_boundary(entry_views(entries@), cut_relative as int) is None,
        },
{
    let ghost es = entry_views(entries@);
    let n = entries.len();
    let hi: usize = if n == 0 {
        0
    } else if cut_relative < n - 1 {
        cut_relative
    } else {
        n - 1
    };
    let mut i: usize = hi + 1;
    while i > 0
        invariant
            i <= hi + 1,
            hi < n || n == 0,
            n == entries@.len(),
            es == entry_views(entries@),
            last_valid_at_or_before(es, hi as int) == last_valid_at_or_before(es, i - 1),
            valid_cut_boundary(es, cut_relative as int) == last_valid_at_or_before(es, hi as int),
        decreases i,
    {
        proof {
            if i - 1 < n {
                assert(es[i - 1] == entries@[i - 1]@);
            }
        }
        if i - 1 < n && is_valid_cut_start(&entries[i - 1]) {
            return Some(i - 1);
        }
        i = i - 1;
    }
    None
}

// ── File operations ──────────────────────────────────────────────────────────

/// Kind named by an operation record: `read`/`Read`, or
/// `modify`/`modified`/`write`/`Write`/`Modify`.
pub open spec fn file_op_kind_spec(k: Seq<char>) -> Option<FileOpKind> {
    if k == "read"@ || k == "Read"@ {
        Some(FileOpKind::Read)
    } else if k == "modify"@ || k == "modified"@ || k == "write"@ || k == "Write"@ || k
        == "Modify"@ {
        Some(FileOpKind::Modify)
    } else {
        None
    }
}

fn text_is(s: &String, lit: &str) -> (b: bool)
    ensures
        b == (s@ == lit@),
{
    let t = String::from_str(lit);
    *s == t
}

/// Parses the kind of a file operation record.
pub fn parse_file_op_kind(kind: &str) -> (r: Option<FileOpKind>)
    ensures
        r == file_op_kind_spec(kind@),
{
    let k = String::from_str(kind);
    if text_is(&k, "read") || text_is(&k, "Read") {
        Some(FileOpKind::Read)
    } else if text_is(&k, "modify") || text_is(&k, "modified") || text_is(&k, "write") || text_is(
        &k,
        "Write",
    ) || text_is(&k, "Modify") {
        Some(FileOpKind::Modify)
    } else {
        None
    }
}

/// The string fields `path` and `kind` of a JSON object, where present.
#[derive(Debug)]
pub struct OpFields {
    pub path: Option<String>,
    pub kind: Option<String>,
}

/// What operation extraction reads of a JSON value: the records of its
/// `file_operations` array (when it has one) and its own fields.
#[derive(Debug)]
pub struct FileOpFields {
    pub items: Option<Vec<OpFields>>,
    pub top: OpFields,
}

/// Model of [`OpFields`].
pub type OpFieldsView = (Option<Seq<char>>, Option<Seq<char>>);

pub open spec fn opt_str_view(o: Option<String>) -> Option<Seq<char>> {
    match o {
        Some(s) => Some(s@),
        None => None,
    }
}

pub open spec fn op_fields_view(f: OpFields) -> OpFieldsView {
    (opt_str_view(f.path), opt_str_view(f.kind))
}

pub open spec fn file_op_fields_view(f: FileOpFields) -> (Option<Seq<OpFieldsView>>, OpFieldsView) {
    (
        match f.items {
            Some(v) => Some(v@.map_values(|x: OpFields| op_fields_view(x))),
            None => None,
        },
        op_fields_view(f.top),
    )
}

/// What `serde_json` reads of a JSON text: for the value it parses to (null
/// when the text does not parse), the `path` and `kind` strings of each
/// element of its `file_operations` array (when that is an array) and of the
/// value itself.
pub uninterp spec fn json_file_op_fields(data: Seq<char>) -> (
    Option<Seq<OpFieldsView>>,
    OpFieldsView,
);

/// Reads the operation fields of a JSON text with `serde_json` (parse, then
/// `Value::get`, `Value::as_array` and `Value::as_str`); the result is
/// named, not described.
#[verifier::external_body]
fn read_file_op_fields(data: &str) -> (r: FileOpFields)
    ensures
        file_op_fields_view(r) == json_file_op_fields(data@),
{
    let v: Value = serde_json::from_str(data).unwrap_or_default();
    let mut items = None;
    if let Some(a) = v.get("file_operations").and_then(Value::as_array) {
        let mut out = Vec::new();
        for x in a {
            let path = x.get("path").and_then(Value::as_str).map(str::to_string);
            out.push(OpFields { path, kind: x.get("kind").and_then(Value::as_str).map(str::to_string) });
        }
        items = Some(out);
    }
    let path = v.get("path").and_then(Value::as_str).map(str::to_string);
    FileOpFields { items, top: OpFields { path, kind: v.get("kind").and_then(Value::as_str).map(str::to_string) } }
}

/// The operations of a list of records, in order.
pub open spec fn ops_of_items(items: Seq<OpFieldsView>, id: EntryId) -> Seq<(Seq<char>, FileOpKind, EntryId)>
    decreases items.len(),
{
    if items.len() == 0 {
        seq![]
    } else {
        let r = ops_of_items(items.drop_last(), id);
        match op_of_plain(items.last(), id) {
            Some(o) => r.push(o),
            None => r,
        }
    }
}

/// The operation of one record as plain values: path, kind, entry.
pub open spec fn op_of_plain(f: OpFieldsView, id: EntryId) -> Option<(Seq<char>, FileOpKind, EntryId)> {
    match f.0 {
        None => None,
        Some(p) => match f.1 {
            None => None,
            Some(k) => match file_op_kind_spec(k) {
                None => None,
                Some(kind) => Some((p, kind, id)),
            },
        },
    }
}

/// The operations recorded in one JSON value: those of its
/// `file_operations` array when it has one, else its own.
pub open spec fn ops_of_fields(f: (Option<Seq<OpFieldsView>>, OpFieldsView), id: EntryId) -> Seq<
    (Seq<char>, FileOpKind, EntryId),
> {
    match f.0 {
        Some(items) => ops_of_items(items, id),
        None => match op_of_plain(f.1, id) {
            Some(o) => seq![o],
            None => seq![],
        },
    }
}

/// Plain model of a file operation.
pub open spec fn op_view(o: FileOperation) -> (Seq<char>, FileOpKind, EntryId) {
    (o.path@, o.kind, o.at_entry)
}

fn op_from(f: &OpFields, id: EntryId) -> (r: Option<FileOperation>)
    ensures
        match r {
            Some(o) => op_of_plain(op_fields_view(*f), id) == Some(op_view(o)),
            None => op_of_plain(op_fields_view(*f), id) is None,
        },
{
    match &f.path {
        None => None,
        Some(p) => match &f.kind {
            None => None,
            Some(k) => match parse_file_op_kind(k.as_str()) {
                None => None,
                Some(kind) => Some(FileOperation { path: p.clone(), kind, at_entry: id }),
            },
        },
    }
}

/// The operations recorded in the fields read from one JSON value.
pub fn ops_from_fields(f: &FileOpFields, id: EntryId, out: &mut Vec<FileOperation>)
    ensures
        final(out)@.map_values(|o: FileOperation| op_view(o)) == old(out)@.map_values(
            |o: FileOperation| op_view(o),
        ) + ops_of_fields(file_op_fields_view(*f), id),
{
    let ghost start = out@.map_values(|o: FileOperation| op_view(o));
    match &f.items {
        Some(items) => {
            let ghost iv = items@.map_values(|x: OpFields| op_fields_view(x));
            let mut i: usize = 0;
            proof {
                assert(start + ops_of_items(iv.subrange(0, 0), id) =~= start);
            }
            while i < items.len()
                invariant
                    i <= items@.len(),
                    iv == items@.map_values(|x: OpFields| op_fields_view(x)),
                    out@.map_values(|o: FileOperation| op_view(o)) == start + ops_of_items(
                        iv.subrange(0, i as int),
                        id,
                    ),
                decreases items.len() - i,
            {
                proof {
                    assert(iv.subrange(0, i + 1).drop_last() =~= iv.subrange(0, i as int));
                    assert(iv.subrange(0, i + 1).last() == op_fields_view(items@[i as int]));
                }
                let ghost before = out@.map_values(|o: FileOperation| op_view(o));
                match op_from(&items[i], id) {
                    Some(o) => {
                        out.push(o);
                        proof {
                            assert(out@.map_values(|o: FileOperation| op_view(o)) =~= before.push(
                                op_view(o),
                            ));
                        }
                    },
                    None => {},
                }
                i = i + 1;
            }
            proof {
                assert(iv.subrange(0, i as int) =~= iv);
            }
        },
        None => {
            match op_from(&f.top, id) {
                Some(o) => {
                    out.push(o);
                    proof {
                        assert(out@.map_values(|o: FileOperation| op_view(o)) =~= start + seq![
                            op_view(o),
                        ]);
                    }
                },
                None => {
                    proof {
                        assert(start + Seq::<(Seq<char>, FileOpKind, EntryId)>::empty() =~= start);
                    }
                },
            }
        },
    }
}

/// The JSON data of an entry that may record file operations: custom entries
/// and custom messages.
pub open spec fn entry_json(e: EntryView) -> Option<Seq<char>> {
    match e.payload {
        PayloadView::Custom { data, .. } => Some(data@),
        PayloadView::Message(MessageView::Custom { data, .. }) => Some(data@),
        _ => None,
    }
}

/// The file operations recorded in a run of entries, in order.
pub open spec fn entries_file_ops(es: Seq<EntryView>) -> Seq<(Seq<char>, FileOpKind, EntryId)>
    decreases es.len(),
{
    if es.len() == 0 {
        seq![]
    } else {
        let r = entries_file_ops(es.drop_last());
        match entry_json(es.last()) {
            Some(d) => r + ops_of_fields(json_file_op_fields(d), es.last().id),
            None => r,
        }
    }
}

/// The file operations recorded in entries `v[0..hi]`.
pub fn extract_file_operations(v: &[SessionEntry], hi: usize) -> (r: Vec<FileOperation>)
    requires
        hi <= v@.len(),
    ensures
        r@.map_values(|o: FileOperation| op_view(o)) == entries_file_ops(
            entry_views(v@).subrange(0, hi as int),
        ),
{
    let ghost es = entry_views(v@);
    let mut out: Vec<FileOperation> = Vec::new();
    let mut i: usize = 0;
    proof {
        assert(out@.map_values(|o: FileOperation| op_view(o)) =~= Seq::<
            (Seq<char>, FileOpKind, EntryId),
        >::empty());
    }
    while i < hi
        invariant
            i <= hi <= v@.len(),
            es == entry_views(v@),
            out@.map_values(|o: FileOperation| op_view(o)) == entries_file_ops(
                es.subrange(0, i as int),
            ),
        decreases hi - i,
    {
        proof {
            assert(es.subrange(0, i + 1).drop_last() =~= es.subrange(0, i as int));
            assert(es.subrange(0, i + 1).last() == v@[i as int]@);
        }
        let ghost before = out@.map_values(|o: FileOperation| op_view(o));
        match &v[i].payload {
            SessionEntryPayload::Custom { data, .. } => {
                let f = read_file_op_fields(data.as_str());
                ops_from_fields(&f, v[i].id, &mut out);
            },
            SessionEntryPayload::Message(AgentMessage::Custom(c)) => {
                let f = read_file_op_fields(c.data.as_str());
                ops_from_fields(&f, v[i].id, &mut out);
            },
            _ => {
                proof {
                    assert(before =~= before);
                }
            },
        }
        i = i + 1;
    }
    out
}

// ── Conversation text ────────────────────────────────────────────────────────

/// The text of one content block.
pub open spec fn block_text(b: ContentBlock) -> Seq<char> {
    match b {
        ContentBlock::Text { text } => text@,
        ContentBlock::Thinking { thinking, .. } => thinking@,
        ContentBlock::ToolUse { name, input, .. } => "[Tool: "@ + name@ + "("@ + input@ + ")]"@,
        ContentBlock::Image { .. } => "[image]"@,
    }
}

/// The texts of content blocks joined by newlines.
pub open spec fn blocks_text(bs: Seq<ContentBlock>) -> Seq<char> {
    join(bs.map_values(|b: ContentBlock| block_text(b)), seq!['\n'])
}

/// The text of one message, headed by its role.
pub open spec fn message_text(m: MessageView) -> Seq<char> {
    match m {
        MessageView::User { content, .. } => "[User]\n"@ + blocks_text(content),
        MessageView::Assistant(a) => "[Assistant]\n"@ + blocks_text(a.content),
        MessageView::ToolResult { content, is_error, .. } => "[Tool Result"@ + (if is_error {
            " (error)"@
        } else {
            seq![]
        }) + "]\n"@ + blocks_text(content),
        MessageView::CompactionSummary { summary, .. } => "[Previous Summary]\n"@ + summary@,
        MessageView::BranchSummary { summary, .. } => "[Branch Summary]\n"@ + summary@,
        MessageView::Custom { message_type, data, .. } => "[Custom: "@ + message_type@ + "]\n"@
            + data@,
    }
}

/// The text of an entry: messages and model changes only.
pub open spec fn entry_text(e: EntryView) -> Option<Seq<char>> {
    match e.payload {
        PayloadView::Message(m) => Some(message_text(m)),
        PayloadView::ModelChange { to, .. } => Some("[Config] Model changed to: "@ + to@),
        _ => None,
    }
}

/// The texts of a run of entries, in order.
pub open spec fn entry_texts(es: Seq<EntryView>) -> Seq<Seq<char>>
    decreases es.len(),
{
    if es.len() == 0 {
        seq![]
    } else {
        let r = entry_texts(es.drop_last());
        match entry_text(es.last()) {
            Some(t) => r.push(t),
            None => r,
        }
    }
}

/// A run of entries as conversation text: entry texts separated by blank lines.
pub open spec fn conversation_text(es: Seq<EntryView>) -> Seq<char> {
    join(entry_texts(es), "\n\n"@)
}

pub(crate) fn blocks_to_text(blocks: &Vec<ContentBlock>) -> (r: String)
    ensures
        r@ == blocks_text(blocks@),
{
    let mut parts: Vec<String> = Vec::new();
    let mut i: usize = 0;
    while i < blocks.len()
        invariant
            i <= blocks@.len(),
            parts@.map_values(|s: String| s@) == blocks@.subrange(0, i as int).map_values(
                |b: ContentBlock| block_text(b),
            ),
        decreases blocks.len() - i,
    {
        let t = match &blocks[i] {
            ContentBlock::Text { text } => text.clone(),
            ContentBlock::Thinking { thinking, .. } => thinking.clone(),
            ContentBlock::ToolUse { name, input, .. } => {
                let mut s = String::from_str("[Tool: ");
                push_str(&mut s, name.as_str());
                push_str(&mut s, "(");
                push_str(&mut s, input.as_str());
                push_str(&mut s, ")]");
                s
            },
            ContentBlock::Image { .. } => String::from_str("[image]"),
        };
        let ghost before = parts@;
        assert(t@ == block_text(blocks@[i as int]));
        parts.push(t);
        proof {
            assert(parts@.map_values(|s: String| s@) =~= before.map_values(|s: String| s@).push(
                block_text(blocks@[i as int]),
            ));
            assert(parts@.map_values(|s: String| s@) =~= blocks@.subrange(0, i + 1).map_values(
                |b: ContentBlock| block_text(b),
            ));
        }
        i = i + 1;
    }
    proof {
        assert(blocks@.subrange(0, i as int) =~= blocks@);
    }
    let r = crate::chars::join_strings(parts.as_slice(), "\n");
    proof {
        reveal_strlit("\n");
        assert("\n"@ =~= seq!['\n']);
    }
    r
}

fn message_to_text(m: &AgentMessage) -> (r: String)
    ensures
        r@ == message_text(m@),
{
    let (head, body): (String, String) = match m {
        AgentMessage::User(u) => (String::from_str("[User]\n"), blocks_to_text(&u.content)),
        AgentMessage::Assistant(a) => (String::from_str("[Assistant]\n"), blocks_to_text(&a.content)),
        AgentMessage::ToolResult(t) => {
            let mut h = String::from_str("[Tool Result");
            if t.is_error {
                push_str(&mut h, " (error)");
            }
            push_str(&mut h, "]\n");
            (h, blocks_to_text(&t.content))
        },
        AgentMessage::CompactionSummary(c) => (
            String::from_str("[Previous Summary]\n"),
            c.summary.clone(),
        ),
        AgentMessage::BranchSummary(b) => (String::from_str("[Branch Summary]\n"), b.summary.clone()),
        AgentMessage::Custom(c) => {
            let mut h = String::from_str("[Custom: ");
            push_str(&mut h, c.message_type.as_str());
            push_str(&mut h, "]\n");
            (h, c.data.clone())
        },
    };
    let mut out = head;
    push_str(&mut out, body.as_str());
    proof {
        match m {
            AgentMessage::ToolResult(t) => {
                if !t.is_error {
                    assert("[Tool Result"@ + Seq::<char>::empty() =~= "[Tool Result"@);
                }
            },
            _ => {},
        }
        assert(out@ =~= message_text(m@));
    }
    out
}

/// Renders entries `v[lo..hi]` as conversation text for the summary model;
/// only messages and model changes appear.
pub fn format_entries_as_text(v: &[SessionEntry], lo: usize, hi: usize) -> (r: String)
    requires
        lo <= hi <= v@.len(),
    ensures
        r@ == conversation_text(entry_views(v@).subrange(lo as int, hi as int)),
{
    let ghost es = entry_views(v@);
    let mut parts: Vec<String> = Vec::new();
    let mut i = lo;
    proof {
        assert(es.subrange(lo as int, lo as int) =~= Seq::<EntryView>::empty());
        assert(parts@.map_values(|s: String| s@) =~= Seq::<Seq<char>>::empty());
    }
    while i < hi
        invariant
            lo <= i <= hi <= v@.len(),
            es == entry_views(v@),
            parts@.map_values(|s: String| s@) == entry_texts(es.subrange(lo as int, i as int)),
        decreases hi - i,
    {
        proof {
            assert(es.subrange(lo as int, i + 1).drop_last() =~= es.subrange(lo as int, i as int));
            assert(es.subrange(lo as int, i + 1).last() == v@[i as int]@);
        }
        let ghost before = parts@;
        match &v[i].payload {
            SessionEntryPayload::Message(m) => {
                let t = message_to_text(m);
                parts.push(t);
                proof {
                    assert(parts@.map_values(|s: String| s@) =~= before.map_values(|s: String| s@).push(t@));
                }
            },
            SessionEntryPayload::ModelChange { to, .. } => {
                let mut t = String::from_str("[Config] Model changed to: ");
                push_str(&mut t, to.as_str());
                parts.push(t);
                proof {
                    assert(parts@.map_values(|s: String| s@) =~= before.map_values(|s: String| s@).push(t@));
                }
            },
            _ => {},
        }
        i = i + 1;
    }
    crate::chars::join_strings(parts.as_slice(), "\n\n")
}

// ── Planning ─────────────────────────────────────────────────────────────────

/// Configuration of compaction.
#[derive(Debug)]
pub struct CompactionSettings {
    /// Automatic compaction is on.
    pub enabled: bool,
    /// Tokens kept free for the response: compaction starts above
    /// `context_window - reserve_tokens`.
    pub reserve_tokens: usize,
    /// Tokens of recent history kept uncompressed.
    pub keep_recent_tokens: usize,
    /// Model that writes the summary.
    pub summary_model: String,
    /// Window of the summary model.
    pub summary_model_info: ModelInfo,
}

impl Default for CompactionSettings {
    fn default() -> (s: Self)
        ensures
            s.enabled,
            s.reserve_tokens == 16_384,
            s.keep_recent_tokens == 20_000,
            s.summary_model@.len() == 0,
            s.summary_model_info == (ModelInfo { context_window: 200_000, max_tokens: 8192 }),
    {
        CompactionSettings {
            enabled: true,
            reserve_tokens: 16_384,
            keep_recent_tokens: 20_000,
            summary_model: String::new(),
            summary_model_info: ModelInfo { context_window: 200_000, max_tokens: 8192 },
        }
    }
}

/// Decision and cut data computed before the summary call.
#[derive(Debug)]
pub struct CompactionPreparation {
    /// The whole path, root first.
    pub path_entries: Vec<SessionEntry>,
    /// First entry kept by the previous compaction (or the root).
    pub first_kept_entry: EntryId,
    /// Entry from which the new compaction keeps content.
    pub cut_point: EntryId,
    /// Summary of the previous compaction, for an incremental update.
    pub previous_summary: Option<String>,
    /// Estimated tokens before this compaction.
    pub estimated_tokens: usize,
    /// Entries between the chosen boundary and the requested cut, when the
    /// cut had to move back to a turn boundary.
    pub split_turn_prefix: Option<Vec<SessionEntry>>,
    /// File operations recorded in the compacted range.
    pub file_operations: Vec<FileOperation>,
}

/// Where the compactable region starts: the previous first kept entry when
/// it is on the path, else the root.
pub open spec fn compact_start(path: Seq<EntryView>, lc: Option<CompactionEntryView>) -> int {
    match lc {
        Some(c) => {
            let i = find_first(path, c.first_kept_entry);
            if i >= 0 {
                i
            } else {
                0
            }
        },
        None => 0,
    }
}

/// Tokens of the entries from position `i` on.
pub open spec fn suffix_tokens(es: Seq<EntryView>, i: int) -> nat {
    entries_tokens(es.subrange(i, es.len() as int))
}

/// The requested cut: one past the last position `j <= i` whose suffix
/// exceeds the recent-token budget.
pub open spec fn cut_from(es: Seq<EntryView>, keep: nat, i: int) -> Option<int>
    decreases i + 1,
{
    if i < 0 {
        None
    } else if suffix_tokens(es, i) > keep {
        Some(i + 1)
    } else {
        cut_from(es, keep, i - 1)
    }
}

/// The compaction threshold: the window less the reserve, floored at zero.
pub open spec fn threshold(context_window: u32, reserve: usize) -> int {
    if context_window >= reserve {
        context_window - reserve
    } else {
        0
    }
}

/// The plan of a compaction: `(start, boundary, requested cut)`, with the
/// boundary and cut relative to the compactable region; none when
/// compaction is off, the path is empty, the estimate is within the
/// threshold, the recent budget already covers everything, or no turn
/// boundary precedes the cut.
pub open spec fn compaction_plan(
    path: Seq<EntryView>,
    lc: Option<CompactionEntryView>,
    s: CompactionSettings,
    mi: ModelInfo,
) -> Option<(int, int, int)> {
    if !s.enabled || path.len() == 0 {
        None
    } else {
        let st = compact_start(path, lc);
        let comp = path.subrange(st, path.len() as int);
        if entries_tokens(comp) <= threshold(mi.context_window, s.reserve_tokens) {
            None
        } else {
            match cut_from(comp, s.keep_recent_tokens as nat, comp.len() - 2) {
                None => None,
                Some(cut) => match valid_cut_boundary(comp, cut) {
                    None => None,
                    Some(v) => Some((st, v, cut)),
                },
            }
        }
    }
}

/// The summary text of a compaction entry's message, if it is a summary.
pub open spec fn previous_summary_of(lc: Option<CompactionEntryView>) -> Option<String> {
    match lc {
        Some(c) => match c.summary_message {
            MessageView::CompactionSummary { summary, .. } => Some(summary),
            _ => None,
        },
        None => None,
    }
}

pub open spec fn opt_entry_views(o: Option<Vec<SessionEntry>>) -> Option<Seq<EntryView>> {
    match o {
        Some(v) => Some(entry_views(v@)),
        None => None,
    }
}

pub open spec fn opt_compaction_view(lc: Option<&CompactionEntry>) -> Option<CompactionEntryView> {
    match lc {
        Some(c) => Some(c@),
        None => None,
    }
}

/// What a preparation holds for a given plan.
pub open spec fn preparation_matches(
    p: CompactionPreparation,
    path: Seq<EntryView>,
    lc: Option<CompactionEntryView>,
    plan: (int, int, int),
) -> bool {
    let comp = path.subrange(plan.0, path.len() as int);
    let v = plan.1;
    let cut = plan.2;
    &&& entry_views(p.path_entries@) == path
    &&& p.first_kept_entry == match lc {
        Some(c) => c.first_kept_entry,
        None => path[0].id,
    }
    &&& p.cut_point == comp[v].id
    &&& p.previous_summary == previous_summary_of(lc)
    &&& p.estimated_tokens == entries_tokens(comp)
    &&& opt_entry_views(p.split_turn_prefix) == if v < cut {
        Some(comp.subrange(v, cut))
    } else {
        None::<Seq<EntryView>>
    }
    &&& p.file_operations@.map_values(|o: FileOperation| op_view(o)) == entries_file_ops(
        comp.subrange(0, v),
    )
}

proof fn lemma_entries_tokens_single(x: EntryView)
    ensures
        entries_tokens(seq![x]) == entry_tokens(x),
{
    let s = seq![x];
    assert(s.drop_last() =~= Seq::<EntryView>::empty());
    assert(entries_tokens(Seq::<EntryView>::empty()) == 0);
}

proof fn lemma_cut_from(es: Seq<EntryView>, keep: nat, i: int)
    requires
        i < es.len(),
    ensures
        match cut_from(es, keep, i) {
            Some(c) => 1 <= c <= i + 1,
            None => true,
        },
    decreases i + 1,
{
    if i >= 0 && suffix_tokens(es, i) <= keep {
        lemma_cut_from(es, keep, i - 1);
    }
}

fn clone_range(v: &[SessionEntry], lo: usize, hi: usize) -> (r: Vec<SessionEntry>)
    requires
        lo <= hi <= v@.len(),
    ensures
        entry_views(r@) == entry_views(v@).subrange(lo as int, hi as int),
{
    let mut out: Vec<SessionEntry> = Vec::new();
    let mut i = lo;
    while i < hi
        invariant
            lo <= i <= hi <= v@.len(),
            entry_views(out@) == entry_views(v@).subrange(lo as int, i as int),
        decreases hi - i,
    {
        let ghost before = out@;
        let e = v[i].clone();
        out.push(e);
        proof {
            assert(entry_views(out@) =~= entry_views(before).push(e@));
            assert(entry_views(out@) =~= entry_views(v@).subrange(lo as int, i + 1));
        }
        i = i + 1;
    }
    out
}

/// Position of the entry with the given id in `v`.
pub fn position_of(v: &[SessionEntry], id: EntryId) -> (r: Option<usize>)
    ensures
        match r {
            Some(i) => find_first(entry_views(v@), id) == i,
            None => find_first(entry_views(v@), id) < 0,
        },
{
    let ghost es = entry_views(v@);
    let mut i: usize = 0;
    while i < v.len()
        invariant
            es == entry_views(v@),
            i <= v@.len(),
            find_first(es.subrange(0, i as int), id) < 0,
        decreases v.len() - i,
    {
        proof {
            assert(es.subrange(0, i + 1).drop_last() =~= es.subrange(0, i as int));
            assert(es[i as int] == v@[i as int]@);
        }
        if v[i].id == id {
            proof {
                lemma_find_first_prefix(es, id, (i + 1) as int);
            }
            return Some(i);
        }
        i = i + 1;
    }
    proof {
        assert(es.subrange(0, i as int) =~= es);
    }
    None
}

proof fn lemma_find_first_prefix(es: Seq<EntryView>, id: EntryId, n: int)
    requires
        0 < n <= es.len(),
        find_first(es.subrange(0, n - 1), id) < 0,
        es[n - 1].id == id,
    ensures
        find_first(es, id) == n - 1,
    decreases es.len(),
{
    if es.len() == n {
        assert(es.drop_last() =~= es.subrange(0, n - 1));
    } else {
        assert(es.drop_last().subrange(0, n - 1) =~= es.subrange(0, n - 1));
        assert(es.drop_last()[n - 1] == es[n - 1]);
        lemma_find_first_prefix(es.drop_last(), id, n);
    }
}

/// Decides whether compaction is needed and where to cut. Pure: the
/// summary call comes later.
#[verifier::rlimit(40)]
pub fn prepare_compaction(
    path: &[SessionEntry],
    last_compaction: Option<&CompactionEntry>,
    settings: &CompactionSettings,
    model_info: &ModelInfo,
) -> (r: Option<CompactionPreparation>)
    requires
        entries_tokens(
            entry_views(path@).subrange(
                compact_start(entry_views(path@), opt_compaction_view(last_compaction)),
                path@.len() as int,
            ),
        ) <= usize::MAX,
    ensures
        ({
            let plan = compaction_plan(
                entry_views(path@),
                opt_compaction_view(last_compaction),
                *settings,
                *model_info,
            );
            match r {
                None => plan is None,
                Some(p) => plan is Some && preparation_matches(
                    p,
                    entry_views(path@),
                    opt_compaction_view(last_compaction),
                    plan->Some_0,
                ),
            }
        }),
{
    let ghost es = entry_views(path@);
    let ghost lcv = opt_compaction_view(last_compaction);
    if !settings.enabled || path.len() == 0 {
        return None;
    }
    let start: usize = match last_compaction {
        Some(lc) => match position_of(path, lc.first_kept_entry) {
            Some(i) => i,
            None => 0,
        },
        None => 0,
    };
    proof {
        match last_compaction {
            Some(lc) => {
                lemma_find_first(es, lc.first_kept_entry);
            },
            None => {},
        }
        assert(start == compact_start(es, lcv));
    }
    let n = path.len();
    let comp = clone_range(path, start, n);
    let ghost cv = entry_views(comp@);
    let m = comp.len();
    proof {
        assert(cv.subrange(0, m as int) =~= cv);
    }
    let estimated = sum_entry_tokens(comp.as_slice(), 0, m);
    let cw = model_info.context_window as usize;
    let threshold_v: usize = if cw >= settings.reserve_tokens {
        cw - settings.reserve_tokens
    } else {
        0
    };
    if estimated <= threshold_v {
        return None;
    }
    // Backward scan for the requested cut.
    let keep = settings.keep_recent_tokens;
    let ghost kn = keep as nat;
    proof {
        lemma_entries_tokens_split(cv, m - 1);
        assert(cv.subrange(m - 1, m as int) =~= seq![cv[m - 1]]);
        assert(seq![cv[m - 1]].drop_last() =~= Seq::<EntryView>::empty());
        assert(cv.subrange(m - 1, m as int).drop_last() =~= Seq::<EntryView>::empty());
        assert(cv[m - 1] == comp@[m - 1]@);
    }
    let mut kept: usize = estimate_tokens_for_entry(&comp[m - 1]);
    if m == 1 {
        return None;
    }
    let mut i: usize = m - 1;
    let mut cut: usize = 0;
    loop
        invariant_except_break
            1 <= i <= m - 1,
            kept == suffix_tokens(cv, i as int),
            cut_from(cv, kn, m - 2) == cut_from(cv, kn, i - 1),
        invariant
            2 <= m,
            m == comp@.len(),
            cv == entry_views(comp@),
            entries_tokens(cv) <= usize::MAX,
            kn == keep,
            estimated == entries_tokens(cv),
            estimated > threshold(model_info.context_window, settings.reserve_tokens),
            es == entry_views(path@),
            lcv == opt_compaction_view(last_compaction),
            cv == es.subrange(start as int, n as int),
            start == compact_start(es, lcv),
            n == path@.len(),
            n > 0,
            settings.enabled,
            settings.keep_recent_tokens == keep,
        ensures
            cut_from(cv, kn, m - 2) == Some(cut as int),
        decreases i,
    {
        let j = i - 1;
        let ghost w = cv.subrange(j as int, m as int);
        proof {
            lemma_entries_tokens_split(w, 1);
            assert(w.subrange(0, 1) =~= seq![cv[j as int]]);
            assert(seq![cv[j as int]].drop_last() =~= Seq::<EntryView>::empty());
            lemma_entries_tokens_single(cv[j as int]);
            assert(w.subrange(1, (m - j) as int) =~= cv.subrange(i as int, m as int));
            assert(suffix_tokens(cv, j as int) == entry_tokens(cv[j as int]) + suffix_tokens(
                cv,
                i as int,
            ));
            lemma_entries_tokens_split(cv, j as int);
            assert(cv[j as int] == comp@[j as int]@);
        }
        let t = estimate_tokens_for_entry(&comp[j]);
        if kept + t > keep {
            cut = j + 1;
            break;
        }
        kept = kept + t;
        if j == 0 {
            proof {
                assert(cut_from(cv, kn, -1) is None);
            }
            return None;
        }
        i = j;
    }
    proof {
        lemma_cut_from(cv, kn, m - 2);
    }
    let valid = match find_valid_cut_boundary(comp.as_slice(), cut) {
        Some(v) => v,
        None => {
            return None;
        },
    };
    proof {
        lemma_last_valid(cv, if cut < m - 1 {
            cut as int
        } else {
            m - 1
        });
    }
    let cut_point = comp[valid].id;
    let split_turn_prefix = if valid < cut {
        Some(clone_range(comp.as_slice(), valid, cut))
    } else {
        None
    };
    let previous_summary = match last_compaction {
        Some(lc) => match &lc.summary_message {
            AgentMessage::CompactionSummary(cs) => Some(cs.summary.clone()),
            _ => None,
        },
        None => None,
    };
    let prev_first_kept = match last_compaction {
        Some(lc) => lc.first_kept_entry,
        None => path[0].id,
    };
    let file_operations = extract_file_operations(comp.as_slice(), valid);
    let path_entries = clone_range(path, 0, n);
    proof {
        assert(es.subrange(0, n as int) =~= es);
        assert(es[0] == path@[0]@);
        assert(cv[valid as int] == comp@[valid as int]@);
    }
    Some(
        CompactionPreparation {
            path_entries,
            first_kept_entry: prev_first_kept,
            cut_point,
            previous_summary,
            estimated_tokens: estimated,
            split_turn_prefix,
            file_operations,
        },
    )
}

// ── Summary request and result ───────────────────────────────────────────────

/// System prompt of the summary model.
pub const SUMMARIZATION_SYSTEM_PROMPT: &'static str = "\
You are a context summarization assistant. Your task is to read a conversation \
between a user and an AI coding assistant, then produce a structured summary \
that another LLM instance will use to continue the work seamlessly.\n\
\n\
Be concise but complete. Preserve:\n\
- What the user is trying to accomplish\n\
- What has been done and what remains\n\
- Key decisions and their rationale\n\
- Critical technical details (file paths, function names, error messages)\n\
- The immediate next steps\n";

/// Instructions appended to every summary request.
pub const SUMMARY_REQUEST: &'static str = "\
Create a structured context checkpoint summary using this format:\n\
\n\
## Goal\n\
[What is the user trying to accomplish?]\n\
\n\
## Progress\n\
### Done\n\
- [x] [Completed tasks]\n\
### In Progress\n\
- [ ] [Current work]\n\
\n\
## Key Decisions\n\
- **[Decision]**: [Brief rationale]\n\
\n\
## Next Steps\n\
1. [Ordered list]\n\
\n\
## Critical Context\n\
- [File paths, function names, error messages to preserve]\n";

/// Note appended when the cut moved back to a turn boundary.
pub const SPLIT_NOTE: &'static str = "## Compaction Note\n\
The cut point was moved backward to the nearest turn boundary; \
extra entries before the requested token boundary were included in this \
summary to preserve message ordering.";

/// What the summary model is asked.
#[derive(Debug)]
pub struct SummaryRequest {
    pub model: String,
    pub max_tokens: u32,
    pub system_prompt: String,
    pub user_content: String,
    /// Position of the cut point in the preparation's path.
    pub cut_index: usize,
}

/// The user message of a summary request.
pub open spec fn summary_user_content(prev: Option<String>, conv: Seq<char>) -> Seq<char> {
    match prev {
        Some(p) => "The messages below are NEW conversation messages to incorporate into the existing summary provided in <previous-summary> tags.\n\n<previous-summary>\n"@
            + p@ + "\n</previous-summary>\n\nNew conversation:\n<conversation>\n"@ + conv
            + "\n</conversation>\n\nUpdate the summary to incorporate the new information. Preserve existing completed items, update in-progress items, add new progress.\n\n"@
            + SUMMARY_REQUEST@,
        None => "Here is the conversation to summarize:\n\n<conversation>\n"@ + conv
            + "\n</conversation>\n\n"@ + SUMMARY_REQUEST@,
    }
}

/// Input budget of the summary model: window less output, floored at zero.
pub open spec fn input_budget(mi: ModelInfo) -> int {
    if mi.context_window >= mi.max_tokens {
        mi.context_window - mi.max_tokens
    } else {
        0
    }
}

/// The summary request for a preparation, or the reason it cannot be made:
/// the cut point or the previous first kept entry is missing from the path,
/// or the prompt would not fit the summary model.
pub open spec fn summary_request_spec(p: CompactionPreparation, s: CompactionSettings) -> Result<
    (Seq<char>, int),
    Seq<char>,
> {
    let path = entry_views(p.path_entries@);
    let ci = find_first(path, p.cut_point);
    let fi = find_first(path, p.first_kept_entry);
    if ci < 0 {
        Err("cut point "@ + uuid_text(p.cut_point.0 as nat) + " not found in compaction path"@)
    } else if fi < 0 {
        Err(
            "first kept entry "@ + uuid_text(p.first_kept_entry.0 as nat)
                + " not found in compaction path"@,
        )
    } else {
        let user = summary_user_content(p.previous_summary, conversation_text(path.subrange(fi, ci)));
        let tokens = text_tokens(SUMMARIZATION_SYSTEM_PROMPT@) + text_tokens(user);
        if tokens > input_budget(s.summary_model_info) {
            Err(
                "conversation too long to summarize: ~"@ + decimal(tokens) + " tokens exceeds summary model input budget of "@
                    + decimal(input_budget(s.summary_model_info) as nat),
            )
        } else {
            Ok((user, ci))
        }
    }
}

/// An incremental compaction folds the previous summary into the next one:
/// when the preparation carries a previous summary, the summary request
/// opens by announcing new messages for an existing summary, holds that
/// summary inside `<previous-summary>` tags, and holds the new conversation
/// (the entries from the first kept entry up to the cut) inside
/// `<conversation>` tags. Without one, it asks for a fresh summary of the
/// conversation.
pub proof fn law_summary_request_folds_previous_summary(p: CompactionPreparation, s: CompactionSettings)
    requires
        summary_request_spec(p, s) is Ok,
    ensures
        ({
            let c = summary_request_spec(p, s)->Ok_0.0;
            let path = entry_views(p.path_entries@);
            let conv = conversation_text(
                path.subrange(find_first(path, p.first_kept_entry), find_first(path, p.cut_point)),
            );
            &&& p.previous_summary is Some ==> crate::chars::starts_with(
                c,
                "The messages below are NEW conversation messages to incorporate into the existing summary provided in <previous-summary> tags."@,
            ) && crate::chars::contains_sub(
                c,
                "<previous-summary>\n"@ + p.previous_summary->Some_0@ + "\n</previous-summary>"@,
            )
            &&& p.previous_summary is None ==> crate::chars::starts_with(
                c,
                "Here is the conversation to summarize:"@,
            )
            &&& crate::chars::contains_sub(c, "<conversation>\n"@ + conv + "\n</conversation>"@)
        }),
{
    let c = summary_request_spec(p, s)->Ok_0.0;
    let path = entry_views(p.path_entries@);
    let conv = conversation_text(
        path.subrange(find_first(path, p.first_kept_entry), find_first(path, p.cut_point)),
    );
    assert(c == summary_user_content(p.previous_summary, conv));
    reveal_strlit(
        "The messages below are NEW conversation messages to incorporate into the existing summary provided in <previous-summary> tags.\n\n<previous-summary>\n",
    );
    reveal_strlit(
        "The messages below are NEW conversation messages to incorporate into the existing summary provided in <previous-summary> tags.",
    );
    reveal_strlit("\n</previous-summary>\n\nNew conversation:\n<conversation>\n");
    reveal_strlit("<previous-summary>\n");
    reveal_strlit("\n</previous-summary>");
    reveal_strlit("<conversation>\n");
    reveal_strlit("\n</conversation>");
    reveal_strlit(
        "\n</conversation>\n\nUpdate the summary to incorporate the new information. Preserve existing completed items, update in-progress items, add new progress.\n\n",
    );
    reveal_strlit("Here is the conversation to summarize:\n\n<conversation>\n");
    reveal_strlit("Here is the conversation to summarize:");
    reveal_strlit("\n</conversation>\n\n");
    let ct = "<conversation>\n"@ + conv + "\n</conversation>"@;
    match p.previous_summary {
        Some(ps) => {
            let a = "The messages below are NEW conversation messages to incorporate into the existing summary provided in <previous-summary> tags.\n\n<previous-summary>\n"@;
            let intro = "The messages below are NEW conversation messages to incorporate into the existing summary provided in <previous-summary> tags."@;
            let b = "\n</previous-summary>\n\nNew conversation:\n<conversation>\n"@;
            let d = "\n</conversation>\n\nUpdate the summary to incorporate the new information. Preserve existing completed items, update in-progress items, add new progress.\n\n"@;
            let rest = SUMMARY_REQUEST@;
            assert(c == a + ps@ + b + conv + d + rest);
            assert(c.subrange(0, intro.len() as int) =~= intro);
            let needle = "<previous-summary>\n"@ + ps@ + "\n</previous-summary>"@;
            let i: int = intro.len() as int + 2;
            assert(c.subrange(i, i + needle.len()) =~= needle);
            assert(crate::chars::occurs_at(c, needle, i));
            let j: int = a.len() + ps@.len() + b.len() - 15;
            assert(c.subrange(j, j + ct.len()) =~= ct);
            assert(crate::chars::occurs_at(c, ct, j));
        },
        None => {
            let a = "Here is the conversation to summarize:\n\n<conversation>\n"@;
            let intro = "Here is the conversation to summarize:"@;
            let d = "\n</conversation>\n\n"@;
            assert(c == a + conv + d + SUMMARY_REQUEST@);
            assert(c.subrange(0, intro.len() as int) =~= intro);
            let j: int = intro.len() as int + 2;
            assert(c.subrange(j, j + ct.len()) =~= ct);
            assert(crate::chars::occurs_at(c, ct, j));
        },
    }
}

proof fn lemma_text_tokens_bound(s: Seq<char>)
    ensures
        text_tokens(s) <= usize::MAX / 4 + 1,
{
}

/// Builds the request for the summary model (the first half of a
/// compaction; the call itself is made by the caller).
pub fn prepare_summary_request(prep: &CompactionPreparation, settings: &CompactionSettings) -> (r:
    Result<SummaryRequest, CompactionError>)
    requires
        ({
            let path = entry_views(prep.path_entries@);
            let ci = find_first(path, prep.cut_point);
            let fi = find_first(path, prep.first_kept_entry);
            ci >= 0 && fi >= 0 ==> fi <= ci
        }),
    ensures
        match r {
            Ok(q) => summary_request_spec(*prep, *settings) == Ok::<(Seq<char>, int), Seq<char>>(
                (q.user_content@, q.cut_index as int),
            ) && q.model@ == settings.summary_model@ && q.max_tokens
                == settings.summary_model_info.max_tokens && q.system_prompt@
                == SUMMARIZATION_SYSTEM_PROMPT@,
            Err(e) => summary_request_spec(*prep, *settings) is Err && (e matches CompactionError::SummaryFailed(
                m,
            ) && m@ == summary_request_spec(*prep, *settings)->Err_0),
        },
{
    let path = prep.path_entries.as_slice();
    let cut_idx = match position_of(path, prep.cut_point) {
        Some(i) => i,
        None => {
            let mut msg = String::from_str("cut point ");
            let id = uuid_string(prep.cut_point.0);
            push_str(&mut msg, id.as_str());
            push_str(&mut msg, " not found in compaction path");
            return Err(CompactionError::SummaryFailed(msg));
        },
    };
    let first_idx = match position_of(path, prep.first_kept_entry) {
        Some(i) => i,
        None => {
            let mut msg = String::from_str("first kept entry ");
            let id = uuid_string(prep.first_kept_entry.0);
            push_str(&mut msg, id.as_str());
            push_str(&mut msg, " not found in compaction path");
            return Err(CompactionError::SummaryFailed(msg));
        },
    };
    proof {
        lemma_find_first(entry_views(prep.path_entries@), prep.cut_point);
    }
    let conv = format_entries_as_text(path, first_idx, cut_idx);
    let mut user = String::new();
    match &prep.previous_summary {
        Some(prev) => {
            push_str(
                &mut user,
                "The messages below are NEW conversation messages to incorporate into the existing summary provided in <previous-summary> tags.\n\n<previous-summary>\n",
            );
            push_str(&mut user, prev.as_str());
            push_str(&mut user, "\n</previous-summary>\n\nNew conversation:\n<conversation>\n");
            push_str(&mut user, conv.as_str());
            push_str(
                &mut user,
                "\n</conversation>\n\nUpdate the summary to incorporate the new information. Preserve existing completed items, update in-progress items, add new progress.\n\n",
            );
            push_str(&mut user, SUMMARY_REQUEST);
        },
        None => {
            push_str(&mut user, "Here is the conversation to summarize:\n\n<conversation>\n");
            push_str(&mut user, conv.as_str());
            push_str(&mut user, "\n</conversation>\n\n");
            push_str(&mut user, SUMMARY_REQUEST);
        },
    }
    let a = estimate_tokens_for_text(SUMMARIZATION_SYSTEM_PROMPT);
    let b = estimate_tokens_for_text(user.as_str());
    proof {
        lemma_text_tokens_bound(SUMMARIZATION_SYSTEM_PROMPT@);
        lemma_text_tokens_bound(user@);
    }
    let prompt_tokens = a + b;
    let cw = settings.summary_model_info.context_window as usize;
    let mt = settings.summary_model_info.max_tokens as usize;
    let max_input: usize = if cw >= mt {
        cw - mt
    } else {
        0
    };
    if prompt_tokens > max_input {
        let mut msg = String::from_str("conversation too long to summarize: ~");
        let t = u64_text(prompt_tokens as u64);
        push_str(&mut msg, t.as_str());
        push_str(&mut msg, " tokens exceeds summary model input budget of ");
        let m = u64_text(max_input as u64);
        push_str(&mut msg, m.as_str());
        return Err(CompactionError::SummaryFailed(msg));
    }
    Ok(
        SummaryRequest {
            model: settings.summary_model.clone(),
            max_tokens: settings.summary_model_info.max_tokens,
            system_prompt: String::from_str(SUMMARIZATION_SYSTEM_PROMPT),
            user_content: user,
            cut_index: cut_idx,
        },
    )
}

/// Output of a compaction; the caller records it in the session.
#[derive(Debug)]
pub struct CompactionResult {
    /// Summary injected at the start of the later context.
    pub summary_message: AgentMessage,
    /// First entry that stays valid after the compaction.
    pub first_kept_entry: EntryId,
    pub tokens_before: usize,
    pub tokens_after: usize,
    pub file_operations: Vec<FileOperation>,
}

/// The debug name of an operation kind.
pub open spec fn kind_name(k: FileOpKind) -> Seq<char> {
    match k {
        FileOpKind::Read => "Read"@,
        FileOpKind::Modify => "Modify"@,
    }
}

/// The summary line of one file operation.
pub open spec fn op_line(o: (Seq<char>, FileOpKind, EntryId)) -> Seq<char> {
    "- "@ + kind_name(o.1) + ": "@ + o.0
}

/// The full summary: the model's text, then the files touched (if any),
/// then the boundary note when the cut moved.
pub open spec fn full_summary(
    text: Seq<char>,
    ops: Seq<(Seq<char>, FileOpKind, EntryId)>,
    split: bool,
) -> Seq<char> {
    let with_files = if ops.len() == 0 {
        text
    } else {
        text + "\n\n## Files Touched\n"@ + join(
            ops.map_values(|o: (Seq<char>, FileOpKind, EntryId)| op_line(o)),
            seq!['\n'],
        )
    };
    if split {
        with_files + "\n\n"@ + SPLIT_NOTE@
    } else {
        with_files
    }
}

/// Completes a compaction with the summary model's reply `summary_text`:
/// an empty (all white space) reply is refused; otherwise the summary is
/// assembled and the token estimate after compaction is the summary's plus
/// that of the entries kept from the cut on.
pub fn finish_compaction(
    prep: CompactionPreparation,
    cut_index: usize,
    summary_text: String,
    now: i64,
) -> (r: Result<CompactionResult, CompactionError>)
    requires
        cut_index <= prep.path_entries@.len(),
        text_tokens(
            full_summary(
                summary_text@,
                prep.file_operations@.map_values(|o: FileOperation| op_view(o)),
                prep.split_turn_prefix is Some,
            ),
        ) + entries_tokens(
            entry_views(prep.path_entries@).subrange(cut_index as int, prep.path_entries@.len() as int),
        ) <= usize::MAX,
    ensures
        match r {
            Ok(c) => {
                let full = full_summary(
                    summary_text@,
                    prep.file_operations@.map_values(|o: FileOperation| op_view(o)),
                    prep.split_turn_prefix is Some,
                );
                &&& trim(summary_text@).len() > 0
                &&& c.summary_message@ == MessageView::CompactionSummary {
                    summary: c.summary_message@->CompactionSummary_summary,
                    timestamp: now,
                }
                &&& c.summary_message@->CompactionSummary_summary@ == full
                &&& c.first_kept_entry == prep.cut_point
                &&& c.tokens_before == prep.estimated_tokens
                &&& c.tokens_after == text_tokens(full) + entries_tokens(
                    entry_views(prep.path_entries@).subrange(
                        cut_index as int,
                        prep.path_entries@.len() as int,
                    ),
                )
                &&& c.file_operations@.map_values(|o: FileOperation| op_view(o))
                    == prep.file_operations@.map_values(|o: FileOperation| op_view(o))
            },
            Err(e) => trim(summary_text@).len() == 0 && (e matches CompactionError::SummaryFailed(m)
                && m@ == "empty summary response"@),
        },
{
    let tv = crate::text::str_chars(summary_text.as_str());
    let (lo, hi) = crate::chars::trim_range(&tv, 0, tv.len());
    proof {
        assert(tv@.subrange(0, tv@.len() as int) =~= summary_text@);
    }
    if lo == hi {
        return Err(CompactionError::SummaryFailed(String::from_str("empty summary response")));
    }
    let ghost ops = prep.file_operations@.map_values(|o: FileOperation| op_view(o));
    let mut full = summary_text;
    if prep.file_operations.len() > 0 {
        let mut lines: Vec<String> = Vec::new();
        let mut i: usize = 0;
        while i < prep.file_operations.len()
            invariant
                i <= prep.file_operations@.len(),
                ops == prep.file_operations@.map_values(|o: FileOperation| op_view(o)),
                lines@.map_values(|s: String| s@) == ops.subrange(0, i as int).map_values(
                    |o: (Seq<char>, FileOpKind, EntryId)| op_line(o),
                ),
            decreases prep.file_operations.len() - i,
        {
            let op = &prep.file_operations[i];
            let mut line = String::from_str("- ");
            match op.kind {
                FileOpKind::Read => push_str(&mut line, "Read"),
                FileOpKind::Modify => push_str(&mut line, "Modify"),
            }
            push_str(&mut line, ": ");
            push_str(&mut line, op.path.as_str());
            let ghost before = lines@;
            proof {
                assert(ops[i as int] == op_view(*op));
                assert(line@ =~= op_line(ops[i as int]));
            }
            let ghost lv = line@;
            lines.push(line);
            proof {
                assert(lines@.map_values(|s: String| s@) =~= before.map_values(|s: String| s@).push(lv));
                assert(lines@.map_values(|s: String| s@) =~= ops.subrange(0, i + 1).map_values(
                    |o: (Seq<char>, FileOpKind, EntryId)| op_line(o),
                ));
            }
            i = i + 1;
        }
        proof {
            assert(ops.subrange(0, i as int) =~= ops);
            reveal_strlit("\n");
            assert("\n"@ =~= seq!['\n']);
        }
        push_str(&mut full, "\n\n## Files Touched\n");
        let joined = crate::chars::join_strings(lines.as_slice(), "\n");
        push_str(&mut full, joined.as_str());
    }
    if prep.split_turn_prefix.is_some() {
        push_str(&mut full, "\n\n");
        push_str(&mut full, SPLIT_NOTE);
    }
    let ghost fv = full@;
    let summary_tokens = estimate_tokens_for_text(full.as_str());
    let n = prep.path_entries.len();
    let kept = sum_entry_tokens(prep.path_entries.as_slice(), cut_index, n);
    let summary_message = AgentMessage::CompactionSummary(
        CompactionSummaryMessage { summary: full, timestamp: now },
    );
    Ok(
        CompactionResult {
            summary_message,
            first_kept_entry: prep.cut_point,
            tokens_before: prep.estimated_tokens,
            tokens_after: summary_tokens + kept,
            file_operations: prep.file_operations,
        },
    )
}

// ── Properties of the plan ───────────────────────────────────────────────────

proof fn lemma_cut_from_props(es: Seq<EntryView>, keep: nat, i: int)
    requires
        i < es.len(),
        cut_from(es, keep, i) is Some,
    ensures
        ({
            let c = cut_from(es, keep, i)->Some_0;
            &&& 1 <= c <= i + 1
            &&& suffix_tokens(es, c - 1) > keep
            &&& c <= i ==> suffix_tokens(es, c) <= keep
        }),
    decreases i + 1,
{
    if i >= 0 && suffix_tokens(es, i) <= keep {
        lemma_cut_from_props(es, keep, i - 1);
    }
}

/// A compaction keeps content from a turn boundary: the kept region starts
/// at a user message, a summary message or a compaction entry, at or before
/// the requested cut.
pub proof fn law_cut_lands_on_turn_boundary(
    path: Seq<EntryView>,
    lc: Option<CompactionEntryView>,
    s: CompactionSettings,
    mi: ModelInfo,
)
    requires
        compaction_plan(path, lc, s, mi) is Some,
    ensures
        ({
            let plan = compaction_plan(path, lc, s, mi)->Some_0;
            let comp = path.subrange(plan.0, path.len() as int);
            &&& 0 <= plan.0 < path.len()
            &&& 0 <= plan.1 <= plan.2
            &&& plan.1 < comp.len()
            &&& valid_cut_start(comp[plan.1])
        }),
{
    let st = compact_start(path, lc);
    match lc {
        Some(c) => {
            lemma_find_first(path, c.first_kept_entry);
        },
        None => {},
    }
    let comp = path.subrange(st, path.len() as int);
    let cut = cut_from(comp, s.keep_recent_tokens as nat, comp.len() - 2)->Some_0;
    lemma_cut_from(comp, s.keep_recent_tokens as nat, comp.len() - 2);
    lemma_last_valid(comp, if cut < comp.len() - 1 {
        cut
    } else {
        comp.len() - 1
    });
}

/// The requested cut is where the recent budget runs out: the entries from
/// just before it exceed `keep_recent_tokens`, and (unless only the last
/// entry is kept) those from it on do not.
pub proof fn law_cut_respects_recent_budget(
    path: Seq<EntryView>,
    lc: Option<CompactionEntryView>,
    s: CompactionSettings,
    mi: ModelInfo,
)
    requires
        compaction_plan(path, lc, s, mi) is Some,
    ensures
        ({
            let plan = compaction_plan(path, lc, s, mi)->Some_0;
            let comp = path.subrange(plan.0, path.len() as int);
            &&& suffix_tokens(comp, plan.2 - 1) > s.keep_recent_tokens
            &&& plan.2 < comp.len() - 1 ==> suffix_tokens(comp, plan.2) <= s.keep_recent_tokens
        }),
{
    let st = compact_start(path, lc);
    let comp = path.subrange(st, path.len() as int);
    lemma_cut_from_props(comp, s.keep_recent_tokens as nat, comp.len() - 2);
}

/// Nothing is compacted when compaction is off, the path is empty, or the
/// estimate of the compactable region is within the threshold.
pub proof fn law_no_compaction_within_budget(
    path: Seq<EntryView>,
    lc: Option<CompactionEntryView>,
    s: CompactionSettings,
    mi: ModelInfo,
)
    requires
        !s.enabled || path.len() == 0 || entries_tokens(
            path.subrange(compact_start(path, lc), path.len() as int),
        ) <= threshold(mi.context_window, s.reserve_tokens),
    ensures
        compaction_plan(path, lc, s, mi) is None,
{
}

} // verus!
