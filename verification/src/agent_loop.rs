//! Decisions of the agent loop: thinking budgets, retry policy, grouping of
//! tool calls into batches, patching of tool results, matching of tool calls
//! to tools, the messages a batch of results adds, and when a turn ends the
//! run.
use vstd::prelude::*;
use crate::errors::{AgentError, ToolError};
use crate::types::{
    AgentMessage, ContentBlock, MessageView, ThinkingLevel, ToolExecutionMode, ToolResult,
    ToolResultMessage, ToolResultView,
};
use crate::text::push_str;

verus! {

// ── Thinking budget ──────────────────────────────────────────────────────────

/// Reasoning tokens requested for a thinking level.
pub open spec fn budget_of(level: ThinkingLevel) -> Option<u32> {
    match level {
        ThinkingLevel::Off => None,
        ThinkingLevel::Minimal => Some(512),
        ThinkingLevel::Low => Some(1_024),
        ThinkingLevel::Medium => Some(8_192),
        ThinkingLevel::High => Some(32_000),
        ThinkingLevel::XHigh => Some(64_000),
    }
}

/// Reasoning tokens requested for a thinking level (none when off).
pub fn thinking_budget(level: ThinkingLevel) -> (r: Option<u32>)
    ensures
        r == budget_of(level),
{
    match level {
        ThinkingLevel::Off => None,
        ThinkingLevel::Minimal => Some(512),
        ThinkingLevel::Low => Some(1_024),
        ThinkingLevel::Medium => Some(8_192),
        ThinkingLevel::High => Some(32_000),
        ThinkingLevel::XHigh => Some(64_000),
    }
}

// ── Retry policy ─────────────────────────────────────────────────────────────

/// Retry configuration for transient provider errors.
#[derive(Clone, Copy, PartialEq, Eq, Structural, Debug)]
pub struct RetryConfig {
    /// Retries allowed after the first attempt.
    pub max_retries: u32,
    /// Base delay of the exponential backoff, in milliseconds.
    pub base_delay_ms: u64,
}

/// What the loop needs to know of a provider error.
#[derive(Clone, Copy, PartialEq, Eq, Structural, Debug)]
pub enum ProviderErrorKind {
    /// Rate limited, with an optional retry-after hint in milliseconds.
    RateLimit { retry_after_ms: Option<u64> },
    /// Overloaded, with an optional retry-after hint in milliseconds.
    Overloaded { retry_after_ms: Option<u64> },
    /// Timed out.
    Timeout,
    /// Anything else.
    Other,
}

/// Errors that are safe to retry: rate limits, overload and timeouts.
pub open spec fn retryable(e: ProviderErrorKind) -> bool {
    !(e is Other)
}

/// Whether an error is safe to retry.
pub fn is_retryable(e: ProviderErrorKind) -> (b: bool)
    ensures
        b == retryable(e),
{
    match e {
        ProviderErrorKind::Other => false,
        _ => true,
    }
}

/// `base * 2^min(attempt, 10)`, saturating at `u64::MAX`.
pub open spec fn backoff(base: u64, attempt: u32) -> u64 {
    let e = if attempt < 10 {
        attempt as nat
    } else {
        10
    };
    let v = base * vstd::arithmetic::power2::pow2(e);
    if v > u64::MAX {
        u64::MAX
    } else {
        v as u64
    }
}

impl RetryConfig {
    /// A retry configuration.
    pub fn new(max_retries: u32, base_delay_ms: u64) -> (r: RetryConfig)
        ensures
            r.max_retries == max_retries,
            r.base_delay_ms == base_delay_ms,
    {
        RetryConfig { max_retries, base_delay_ms }
    }

    /// Whether a retry is left after `attempt` retries.
    pub fn can_retry(&self, attempt: u32) -> (b: bool)
        ensures
            b == (attempt < self.max_retries),
    {
        attempt < self.max_retries
    }

    /// The delay before retry `attempt`: the provider's hint when it gave
    /// one, else the exponential backoff.
    pub fn delay_for(&self, attempt: u32, e: ProviderErrorKind) -> (ms: u64)
        ensures
            ms == match e {
                ProviderErrorKind::RateLimit { retry_after_ms: Some(h) } => h,
                ProviderErrorKind::Overloaded { retry_after_ms: Some(h) } => h,
                _ => backoff(self.base_delay_ms, attempt),
            },
    {
        let hint = match e {
            ProviderErrorKind::RateLimit { retry_after_ms } => retry_after_ms,
            ProviderErrorKind::Overloaded { retry_after_ms } => retry_after_ms,
            _ => None,
        };
        match hint {
            Some(h) => h,
            None => {
                let shift: u32 = if attempt < 10 {
                    attempt
                } else {
                    10
                };
                let mut factor: u64 = 1;
                let mut k: u32 = 0;
                proof {
                    vstd::arithmetic::power2::lemma2_to64();
                }
                while k < shift
                    invariant
                        k <= shift <= 10,
                        factor == vstd::arithmetic::power2::pow2(k as nat),
                        factor <= 1024,
                    decreases shift - k,
                {
                    proof {
                        vstd::arithmetic::power2::lemma_pow2_unfold((k + 1) as nat);
                        vstd::arithmetic::power2::lemma2_to64();
                    }
                    factor = factor * 2;
                    k = k + 1;
                }
                match self.base_delay_ms.checked_mul(factor) {
                    Some(v) => v,
                    None => u64::MAX,
                }
            },
        }
    }
}

impl Default for RetryConfig {
    fn default() -> (r: Self)
        ensures
            r.max_retries == 3,
            r.base_delay_ms == 2_000,
    {
        RetryConfig { max_retries: 3, base_delay_ms: 2_000 }
    }
}

// ── Batches of tool calls ────────────────────────────────────────────────────

/// A call's effective mode: sequential when its tool says so, else the
/// default.
pub open spec fn effective_mode(m: ToolExecutionMode, default_mode: ToolExecutionMode) -> ToolExecutionMode {
    if m == ToolExecutionMode::Sequential {
        ToolExecutionMode::Sequential
    } else {
        default_mode
    }
}

/// The groups of calls `0..modes.len()` as built so far, the last one open.
spec fn groups_open(modes: Seq<ToolExecutionMode>, d: ToolExecutionMode) -> Seq<Seq<nat>>
    decreases modes.len(),
{
    if modes.len() == 0 {
        seq![seq![]]
    } else {
        let g = groups_open(modes.drop_last(), d);
        let i = (modes.len() - 1) as nat;
        if effective_mode(modes.last(), d) == ToolExecutionMode::Sequential {
            let g2 = if g.last().len() > 0 {
                g.push(seq![])
            } else {
                g
            };
            g2.update(g2.len() - 1, seq![i]).push(seq![])
        } else {
            g.update(g.len() - 1, g.last().push(i))
        }
    }
}

/// The non-empty groups, in order.
spec fn non_empty(gs: Seq<Seq<nat>>) -> Seq<Seq<nat>>
    decreases gs.len(),
{
    if gs.len() == 0 {
        seq![]
    } else if gs.last().len() > 0 {
        non_empty(gs.drop_last()).push(gs.last())
    } else {
        non_empty(gs.drop_last())
    }
}

/// The batches the grouping builds.
spec fn batches(modes: Seq<ToolExecutionMode>, d: ToolExecutionMode) -> Seq<Seq<nat>> {
    if modes.len() == 0 {
        seq![]
    } else {
        non_empty(groups_open(modes, d))
    }
}

/// Call `i` runs alone (its effective mode is sequential).
pub open spec fn runs_alone(modes: Seq<ToolExecutionMode>, d: ToolExecutionMode, i: int) -> bool {
    effective_mode(modes[i], d) == ToolExecutionMode::Sequential
}

/// The calls of the batches, batch after batch.
pub open spec fn concat_batches(bs: Seq<Seq<nat>>) -> Seq<nat>
    decreases bs.len(),
{
    if bs.len() == 0 {
        seq![]
    } else {
        concat_batches(bs.drop_last()) + bs.last()
    }
}

/// `bs` batches the calls `0..modes.len()`: batch after batch they list
/// every call once, in order; no batch is empty; a call that runs alone is
/// alone in its batch; and two neighbouring batches are separate only where
/// a call that runs alone ends the first or starts the second.
pub open spec fn batched(bs: Seq<Seq<nat>>, modes: Seq<ToolExecutionMode>, d: ToolExecutionMode) -> bool {
    &&& concat_batches(bs) == Seq::new(modes.len(), |i: int| i as nat)
    &&& forall|k: int| 0 <= k < bs.len() ==> (#[trigger] bs[k]).len() > 0
    &&& forall|k: int, j: int|
        0 <= k < bs.len() && 0 <= j < bs[k].len() && runs_alone(modes, d, #[trigger] bs[k][j] as int)
            ==> bs[k].len() == 1
    &&& forall|k: int|
        0 <= k < bs.len() - 1 ==> runs_alone(modes, d, (#[trigger] bs[k]).last() as int)
            || runs_alone(modes, d, bs[k + 1][0] as int)
}

/// Shape of the groups built over the first `n` calls of `m`.
spec fn open_shape(g: Seq<Seq<nat>>, m: Seq<ToolExecutionMode>, d: ToolExecutionMode, n: int) -> bool {
    &&& g.len() >= 1
    &&& concat_batches(g) == Seq::new(n as nat, |i: int| i as nat)
    &&& forall|k: int| 0 <= k < g.len() - 1 ==> (#[trigger] g[k]).len() > 0
    &&& forall|k: int, j: int|
        0 <= k < g.len() && 0 <= j < g[k].len() && runs_alone(m, d, #[trigger] g[k][j] as int)
            ==> g[k].len() == 1 && k < g.len() - 1
    &&& forall|k: int|
        0 <= k < g.len() - 1 && g[k + 1].len() > 0 ==> runs_alone(m, d, (#[trigger] g[k]).last() as int)
            || runs_alone(m, d, g[k + 1][0] as int)
    &&& (g.last().len() == 0 && g.len() > 1 ==> runs_alone(m, d, g[g.len() - 2].last() as int))
}

proof fn lemma_concat_push(s: Seq<Seq<nat>>, x: Seq<nat>)
    ensures
        concat_batches(s.push(x)) == concat_batches(s) + x,
{
    assert(s.push(x).drop_last() =~= s);
}

proof fn lemma_open_shape(m: Seq<ToolExecutionMode>, d: ToolExecutionMode, n: int)
    requires
        0 <= n <= m.len(),
    ensures
        open_shape(groups_open(m.subrange(0, n), d), m, d, n),
    decreases n,
{
    let mn = m.subrange(0, n);
    if n == 0 {
        assert(groups_open(mn, d) == seq![Seq::<nat>::empty()]);
        let g = seq![Seq::<nat>::empty()];
        assert(g.drop_last() =~= Seq::<Seq<nat>>::empty());
        assert(concat_batches(g.drop_last()) =~= Seq::<nat>::empty());
        assert(g.last() =~= Seq::<nat>::empty());
        assert(concat_batches(g) == concat_batches(g.drop_last()) + g.last());
        assert(concat_batches(g) =~= Seq::new(0, |i: int| i as nat));
    } else {
        lemma_open_shape(m, d, n - 1);
        assert(mn.drop_last() =~= m.subrange(0, n - 1));
        let g = groups_open(m.subrange(0, n - 1), d);
        let i = (n - 1) as nat;
        assert(mn.last() == m[n - 1]);
        let prev = Seq::new((n - 1) as nat, |i: int| i as nat);
        let full = Seq::new(n as nat, |i: int| i as nat);
        assert(full =~= prev.push(i));
        if runs_alone(m, d, n - 1) {
            let g2 = if g.last().len() > 0 {
                g.push(seq![])
            } else {
                g
            };
            let g3 = g2.update(g2.len() - 1, seq![i]);
            let r = g3.push(seq![]);
            assert(groups_open(mn, d) == r);
            // concatenation
            lemma_concat_push(g3, seq![]);
            assert(g3.drop_last() =~= g2.drop_last());
            assert(concat_batches(g3) == concat_batches(g2.drop_last()) + seq![i]);
            if g.last().len() > 0 {
                assert(g2.drop_last() =~= g);
            } else {
                assert(concat_batches(g) == concat_batches(g.drop_last()) + g.last());
                assert(g.last() =~= Seq::<nat>::empty());
                assert(concat_batches(g) =~= concat_batches(g.drop_last()));
            }
            assert(concat_batches(r) =~= full);
            assert forall|k: int| 0 <= k < r.len() - 1 implies (#[trigger] r[k]).len() > 0 by {
                if k == g2.len() - 1 {
                } else {
                    assert(r[k] == g2[k]);
                    if g.last().len() > 0 && k == g.len() - 1 {
                    } else {
                        assert(g2[k] == g[k]);
                    }
                }
            }
            assert forall|k: int, j: int|
                0 <= k < r.len() && 0 <= j < r[k].len() && runs_alone(m, d, #[trigger] r[k][j] as int)
                implies r[k].len() == 1 && k < r.len() - 1 by {
                if k < g2.len() - 1 {
                    assert(r[k] == g2[k]);
                    assert(g2[k] == g[k]);
                    if k == g.len() - 1 {
                        assert(runs_alone(m, d, g[k][j] as int));
                    }
                }
            }
            assert forall|k: int|
                0 <= k < r.len() - 1 && r[k + 1].len() > 0 implies runs_alone(m, d, (#[trigger] r[k]).last() as int)
                || runs_alone(m, d, r[k + 1][0] as int) by {
                if k + 1 == g2.len() - 1 {
                    assert(r[k + 1] == seq![i]);
                } else if k == g2.len() - 1 {
                    assert(r[k] == seq![i]);
                } else {
                    assert(r[k] == g2[k] && r[k + 1] == g2[k + 1]);
                    assert(g2[k] == g[k] && g2[k + 1] == g[k + 1]);
                }
            }
            assert(r[r.len() - 2] == seq![i]);
        } else {
            let r = g.update(g.len() - 1, g.last().push(i));
            assert(groups_open(mn, d) == r);
            assert(r.drop_last() =~= g.drop_last());
            assert(concat_batches(r) == concat_batches(g.drop_last()) + g.last().push(i));
            assert(concat_batches(g) == concat_batches(g.drop_last()) + g.last());
            assert(concat_batches(r) =~= concat_batches(g).push(i));
            assert(concat_batches(r) =~= full);
            assert forall|k: int| 0 <= k < r.len() - 1 implies (#[trigger] r[k]).len() > 0 by {
                assert(r[k] == g[k]);
            }
            assert forall|k: int, j: int|
                0 <= k < r.len() && 0 <= j < r[k].len() && runs_alone(m, d, #[trigger] r[k][j] as int)
                implies r[k].len() == 1 && k < r.len() - 1 by {
                if k < r.len() - 1 {
                    assert(r[k] == g[k]);
                } else {
                    let gl = g.last();
                    assert(r[k] == gl.push(i));
                    if j < gl.len() {
                        assert(r[k][j] == gl[j]);
                        assert(g[g.len() - 1][j] == gl[j]);
                    }
                }
            }
            assert forall|k: int|
                0 <= k < r.len() - 1 && r[k + 1].len() > 0 implies runs_alone(m, d, (#[trigger] r[k]).last() as int)
                || runs_alone(m, d, r[k + 1][0] as int) by {
                assert(r[k] == g[k]);
                if k + 1 == r.len() - 1 {
                    if g.last().len() == 0 {
                        assert(runs_alone(m, d, g[g.len() - 2].last() as int));
                    } else {
                        assert(r[k + 1][0] == g.last()[0]);
                        assert(g[k + 1].len() > 0);
                    }
                } else {
                    assert(r[k + 1] == g[k + 1]);
                }
            }
        }
    }
}

proof fn lemma_non_empty_of_full(s: Seq<Seq<nat>>)
    requires
        forall|k: int| 0 <= k < s.len() ==> (#[trigger] s[k]).len() > 0,
    ensures
        non_empty(s) == s,
    decreases s.len(),
{
    if s.len() > 0 {
        lemma_non_empty_of_full(s.drop_last());
        assert(non_empty(s.drop_last()).push(s.last()) =~= s);
    }
}

/// The batches the grouping builds batch the calls.
proof fn lemma_batches_batched(modes: Seq<ToolExecutionMode>, d: ToolExecutionMode)
    ensures
        batched(batches(modes, d), modes, d),
{
    let n = modes.len() as int;
    if n == 0 {
        assert(concat_batches(Seq::<Seq<nat>>::empty()) =~= Seq::new(0, |i: int| i as nat));
        return;
    }
    lemma_open_shape(modes, d, n);
    assert(modes.subrange(0, n) =~= modes);
    let g = groups_open(modes, d);
    let b = non_empty(g);
    if g.last().len() > 0 {
        lemma_non_empty_of_full(g);
        assert(b == g);
        assert forall|k: int| 0 <= k < b.len() - 1 implies runs_alone(modes, d, (#[trigger] b[k]).last() as int)
            || runs_alone(modes, d, b[k + 1][0] as int) by {
            assert(g[k + 1].len() > 0);
        }
    } else {
        let h = g.drop_last();
        assert forall|k: int| 0 <= k < h.len() implies (#[trigger] h[k]).len() > 0 by {
            assert(h[k] == g[k]);
        }
        lemma_non_empty_of_full(h);
        assert(b == non_empty(h));
        assert(b == h);
        assert(concat_batches(g) == concat_batches(h) + g.last());
        assert(concat_batches(g) =~= concat_batches(h));
        assert forall|k: int, j: int|
            0 <= k < b.len() && 0 <= j < b[k].len() && runs_alone(modes, d, #[trigger] b[k][j] as int)
            implies b[k].len() == 1 by {
            assert(b[k] == g[k]);
        }
        assert forall|k: int| 0 <= k < b.len() - 1 implies runs_alone(modes, d, (#[trigger] b[k]).last() as int)
            || runs_alone(modes, d, b[k + 1][0] as int) by {
            assert(b[k] == g[k] && b[k + 1] == g[k + 1]);
            assert(g[k + 1].len() > 0);
        }
    }
}

pub open spec fn groups_view(g: Vec<Vec<usize>>) -> Seq<Seq<nat>> {
    g@.map_values(|v: Vec<usize>| v@.map_values(|x: usize| x as nat))
}

/// Splits calls into batches at sequential tools: calls before a sequential
/// one form a batch, the sequential call runs alone, and later calls start
/// a new batch.
pub fn group_by_sequential(modes: &[ToolExecutionMode], default_mode: ToolExecutionMode) -> (r: Vec<
    Vec<usize>,
>)
    ensures
        batched(groups_view(r), modes@, default_mode),
{
    proof {
        lemma_batches_batched(modes@, default_mode);
    }
    if modes.len() == 0 {
        let r: Vec<Vec<usize>> = Vec::new();
        proof {
            assert(groups_view(r) =~= Seq::<Seq<nat>>::empty());
        }
        return r;
    }
    let mut groups: Vec<Vec<usize>> = Vec::new();
    let mut cur: Vec<usize> = Vec::new();
    let mut i: usize = 0;
    proof {
        assert(modes@.subrange(0, 0) =~= Seq::<ToolExecutionMode>::empty());
        assert(groups_view(groups).push(cur@.map_values(|x: usize| x as nat)) =~~= groups_open(
            modes@.subrange(0, 0),
            default_mode,
        ));
    }
    while i < modes.len()
        invariant
            i <= modes@.len(),
            groups_view(groups).push(cur@.map_values(|x: usize| x as nat)) == groups_open(
                modes@.subrange(0, i as int),
                default_mode,
            ),
        decreases modes.len() - i,
    {
        let ghost before = groups_view(groups);
        let ghost cv = cur@.map_values(|x: usize| x as nat);
        proof {
            assert(modes@.subrange(0, i + 1).drop_last() =~= modes@.subrange(0, i as int));
            assert(modes@.subrange(0, i + 1).last() == modes@[i as int]);
        }
        let seq_mode = modes[i] == ToolExecutionMode::Sequential
            || default_mode == ToolExecutionMode::Sequential;
        if seq_mode {
            if cur.len() > 0 {
                let done = cur;
                groups.push(done);
                cur = Vec::new();
            }
            let mut single: Vec<usize> = Vec::new();
            single.push(i);
            groups.push(single);
            proof {
                let g = groups_open(modes@.subrange(0, i as int), default_mode);
                assert(g == before.push(cv));
                let g2 = if g.last().len() > 0 {
                    g.push(seq![])
                } else {
                    g
                };
                assert(g2.update(g2.len() - 1, seq![i as nat]).push(seq![]) =~~= groups_view(
                    groups,
                ).push(cur@.map_values(|x: usize| x as nat)));
            }
        } else {
            cur.push(i);
            proof {
                assert(cur@.map_values(|x: usize| x as nat) =~= cv.push(i as nat));
                assert(groups_view(groups).push(cur@.map_values(|x: usize| x as nat)) =~~= before.push(
                    cv,
                ).update(before.len() as int, cv.push(i as nat)));
            }
        }
        i = i + 1;
    }
    proof {
        assert(modes@.subrange(0, i as int) =~= modes@);
    }
    // Drop the empty groups.
    let ghost all = groups_view(groups).push(cur@.map_values(|x: usize| x as nat));
    let mut out: Vec<Vec<usize>> = Vec::new();
    let mut k: usize = 0;
    let n = groups.len();
    proof {
        assert(groups_view(out) =~= non_empty(all.subrange(0, 0)));
    }
    while k < n
        invariant
            k <= n,
            n == groups@.len(),
            all == groups_view(groups).push(cur@.map_values(|x: usize| x as nat)),
            groups_view(out) == non_empty(all.subrange(0, k as int)),
        decreases n - k,
    {
        proof {
            assert(all.subrange(0, k + 1).drop_last() =~= all.subrange(0, k as int));
            assert(all.subrange(0, k + 1).last() == groups@[k as int]@.map_values(|x: usize| x as nat));
        }
        if groups[k].len() > 0 {
            let ghost before = groups_view(out);
            let g = clone_indices(&groups[k]);
            out.push(g);
            proof {
                assert(groups_view(out) =~= before.push(groups@[k as int]@.map_values(|x: usize| x as nat)));
            }
        }
        k = k + 1;
    }
    proof {
        assert(all.subrange(0, n + 1).drop_last() =~= all.subrange(0, n as int));
        assert(all.subrange(0, n + 1) =~= all);
    }
    if cur.len() > 0 {
        let ghost before = groups_view(out);
        out.push(cur);
        proof {
            assert(groups_view(out) =~= before.push(all.last()));
        }
    }
    out
}

fn clone_indices(v: &Vec<usize>) -> (r: Vec<usize>)
    ensures
        r@ == v@,
{
    let mut out: Vec<usize> = Vec::new();
    let mut i: usize = 0;
    while i < v.len()
        invariant
            i <= v@.len(),
            out@ == v@.subrange(0, i as int),
        decreases v.len() - i,
    {
        out.push(v[i]);
        i = i + 1;
    }
    proof {
        assert(v@.subrange(0, i as int) =~= v@);
    }
    out
}

// ── Tool results ─────────────────────────────────────────────────────────────

/// Partial replacement of a tool result; unset fields keep their value.
/// `details` is JSON text.
#[derive(Debug)]
pub struct ToolResultPatch {
    pub content: Option<Vec<ContentBlock>>,
    pub details: Option<String>,
    pub is_error: Option<bool>,
    pub terminate: Option<bool>,
}

/// A result with a patch's content, details and terminate flag applied (the
/// error flag decides between success and failure, see
/// `after_hook_outcome`).
pub open spec fn patched(r: ToolResultView, p: ToolResultPatch) -> ToolResultView {
    ToolResultView {
        content: match p.content {
            Some(c) => c@,
            None => r.content,
        },
        details: match p.details {
            Some(d) => d,
            None => r.details,
        },
        terminate: match p.terminate {
            Some(t) => t,
            None => r.terminate,
        },
    }
}

/// Applies a patch to a tool result.
pub fn apply_patch(result: ToolResult, patch: ToolResultPatch) -> (r: ToolResult)
    ensures
        r@ == patched(result@, patch),
{
    let ghost pv = patch;
    let mut result = result;
    if let Some(c) = patch.content {
        result.content = c;
    }
    if let Some(d) = patch.details {
        result.details = d;
    }
    if let Some(t) = patch.terminate {
        result.terminate = t;
    }
    result
}

/// A tool call requested by the model; `input` is JSON text.
#[derive(Debug)]
pub struct ToolCall {
    pub id: String,
    pub name: String,
    pub input: String,
}

/// The tool calls of a message's content, in order.
pub open spec fn calls_of(content: Seq<ContentBlock>) -> Seq<(String, String, String)>
    decreases content.len(),
{
    if content.len() == 0 {
        seq![]
    } else {
        let r = calls_of(content.drop_last());
        match content.last() {
            ContentBlock::ToolUse { id, name, input } => r.push((id, name, input)),
            _ => r,
        }
    }
}

pub open spec fn call_view(c: ToolCall) -> (String, String, String) {
    (c.id, c.name, c.input)
}

/// Collects the tool calls of an assistant message's content.
pub fn collect_tool_calls(content: &Vec<ContentBlock>) -> (r: Vec<ToolCall>)
    ensures
        r@.map_values(|c: ToolCall| call_view(c)) == calls_of(content@),
{
    let mut out: Vec<ToolCall> = Vec::new();
    let mut i: usize = 0;
    while i < content.len()
        invariant
            i <= content@.len(),
            out@.map_values(|c: ToolCall| call_view(c)) == calls_of(content@.subrange(0, i as int)),
        decreases content.len() - i,
    {
        proof {
            assert(content@.subrange(0, i + 1).drop_last() =~= content@.subrange(0, i as int));
        }
        if let ContentBlock::ToolUse { id, name, input } = &content[i] {
            let ghost before = out@.map_values(|c: ToolCall| call_view(c));
            let c = ToolCall { id: id.clone(), name: name.clone(), input: input.clone() };
            let ghost cv = call_view(c);
            out.push(c);
            proof {
                assert(out@.map_values(|c: ToolCall| call_view(c)) =~= before.push(cv));
            }
        }
        i = i + 1;
    }
    proof {
        assert(content@.subrange(0, i as int) =~= content@);
    }
    out
}

/// Position of the first registered tool with the given name, or -1.
pub open spec fn tool_index(names: Seq<String>, n: String) -> int
    decreases names.len(),
{
    if names.len() == 0 {
        -1
    } else {
        let r = tool_index(names.drop_last(), n);
        if r >= 0 {
            r
        } else if names.last()@ == n@ {
            names.len() - 1
        } else {
            -1
        }
    }
}

/// For each call, the position of the tool it names (or -1 when unknown).
pub open spec fn call_targets(calls: Seq<(String, String, String)>, names: Seq<String>) -> Seq<int> {
    calls.map_values(|c: (String, String, String)| tool_index(names, c.1))
}

fn tool_index_exec(names: &[String], n: &String) -> (r: Option<usize>)
    ensures
        match r {
            Some(k) => tool_index(names@, *n) == k,
            None => tool_index(names@, *n) == -1,
        },
{
    let mut i: usize = 0;
    while i < names.len()
        invariant
            i <= names@.len(),
            tool_index(names@.subrange(0, i as int), *n) == -1,
        decreases names.len() - i,
    {
        proof {
            assert(names@.subrange(0, i + 1).drop_last() =~= names@.subrange(0, i as int));
        }
        if names[i] == *n {
            proof {
                lemma_tool_index_prefix(names@, *n, (i + 1) as int);
            }
            return Some(i);
        }
        i = i + 1;
    }
    proof {
        assert(names@.subrange(0, i as int) =~= names@);
    }
    None
}

proof fn lemma_tool_index_prefix(names: Seq<String>, n: String, k: int)
    requires
        0 < k <= names.len(),
        tool_index(names.subrange(0, k - 1), n) == -1,
        names[k - 1]@ == n@,
    ensures
        tool_index(names, n) == k - 1,
    decreases names.len(),
{
    if names.len() == k {
        assert(names.drop_last() =~= names.subrange(0, k - 1));
    } else {
        assert(names.drop_last().subrange(0, k - 1) =~= names.subrange(0, k - 1));
        assert(names.drop_last()[k - 1] == names[k - 1]);
        lemma_tool_index_prefix(names.drop_last(), n, k);
    }
}

/// For each call, the position of the registered tool it names; calls to
/// unknown tools get none and are answered with an error result.
pub fn match_tool_calls(calls: &[ToolCall], tool_names: &[String]) -> (r: Vec<Option<usize>>)
    ensures
        r@.len() == calls@.len(),
        forall|k: int|
            0 <= k < calls@.len() ==> match #[trigger] r@[k] {
                Some(t) => tool_index(tool_names@, calls@[k].name) == t,
                None => tool_index(tool_names@, calls@[k].name) == -1,
            },
{
    let mut out: Vec<Option<usize>> = Vec::new();
    let mut i: usize = 0;
    while i < calls.len()
        invariant
            i <= calls@.len(),
            out@.len() == i,
            forall|k: int|
                0 <= k < i ==> match #[trigger] out@[k] {
                    Some(t) => tool_index(tool_names@, calls@[k].name) == t,
                    None => tool_index(tool_names@, calls@[k].name) == -1,
                },
        decreases calls.len() - i,
    {
        out.push(tool_index_exec(tool_names, &calls[i].name));
        i = i + 1;
    }
    out
}

/// The message reporting a call to an unknown tool.
pub open spec fn unknown_tool_text(name: Seq<char>) -> Seq<char> {
    "Unknown tool: "@ + name
}

/// The error result of a call to an unknown tool.
pub fn unknown_tool_error(name: &str) -> (e: ToolError)
    ensures
        e matches ToolError::Execution(m) && m@ == unknown_tool_text(name@),
{
    let mut m = String::from_str("Unknown tool: ");
    push_str(&mut m, name);
    ToolError::Execution(m)
}

pub open spec fn outcome_view(r: Result<ToolResult, ToolError>) -> Result<ToolResultView, ToolError> {
    match r {
        Ok(t) => Ok(t@),
        Err(e) => Err(e),
    }
}

/// Builds the transcript message of one tool outcome.
pub fn tool_result_message(id: &String, result: &Result<ToolResult, ToolError>, now: i64) -> (m: AgentMessage)
    ensures
        match result {
            Ok(t) => m@ == MessageView::ToolResult {
                tool_use_id: *id,
                content: t.content@,
                is_error: false,
                timestamp: now,
            },
            Err(e) => {
                &&& m@ is ToolResult
                &&& m@->ToolResult_tool_use_id == *id
                &&& m@->ToolResult_is_error
                &&& m@->ToolResult_timestamp == now
                &&& m@->ToolResult_content.len() == 1
                &&& m@->ToolResult_content[0] is Text
                &&& m@->ToolResult_content[0]->Text_text@ == e.text()
            },
        },
{
    match result {
        Ok(t) => AgentMessage::ToolResult(
            ToolResultMessage {
                tool_use_id: id.clone(),
                content: crate::types::clone_blocks(&t.content),
                is_error: false,
                timestamp: now,
            },
        ),
        Err(e) => {
            let text = e.message();
            let mut content: Vec<ContentBlock> = Vec::new();
            content.push(ContentBlock::Text { text });
            AgentMessage::ToolResult(
                ToolResultMessage {
                    tool_use_id: id.clone(),
                    content,
                    is_error: true,
                    timestamp: now,
                },
            )
        },
    }
}

/// A batch ends the run when it is not empty and every call succeeded
/// asking to terminate.
pub open spec fn batch_terminates(rs: Seq<Result<ToolResultView, ToolError>>) -> bool {
    rs.len() > 0 && forall|k: int|
        0 <= k < rs.len() ==> (#[trigger] rs[k] matches Ok(t) && t.terminate)
}

/// Whether a batch of outcomes ends the run.
pub fn should_terminate(results: &[(String, Result<ToolResult, ToolError>)]) -> (b: bool)
    ensures
        b == batch_terminates(
            results@.map_values(|p: (String, Result<ToolResult, ToolError>)| outcome_view(p.1)),
        ),
{
    let ghost rs = results@.map_values(
        |p: (String, Result<ToolResult, ToolError>)| outcome_view(p.1),
    );
    if results.len() == 0 {
        return false;
    }
    let mut i: usize = 0;
    while i < results.len()
        invariant
            i <= results@.len(),
            rs == results@.map_values(
                |p: (String, Result<ToolResult, ToolError>)| outcome_view(p.1),
            ),
            forall|k: int| 0 <= k < i ==> (#[trigger] rs[k] matches Ok(t) && t.terminate),
        decreases results.len() - i,
    {
        proof {
            assert(rs[i as int] == outcome_view(results@[i as int].1));
        }
        match &results[i].1 {
            Ok(t) => {
                if !t.terminate {
                    return false;
                }
            },
            Err(_) => {
                return false;
            },
        }
        i = i + 1;
    }
    true
}

// ── Tool hooks ───────────────────────────────────────────────────────────────

/// What a before-tool-call hook decides; arguments are JSON text.
#[derive(Debug)]
pub enum BeforeToolCallDecision {
    /// Run the tool with its arguments.
    Allow,
    /// Run the tool with these arguments instead.
    Modify(String),
    /// Do not run the tool; this is its result.
    Deny(ToolResult),
}

/// What an after-tool-call hook decides.
#[derive(Debug)]
pub enum AfterToolCallDecision {
    /// Keep the result.
    Passthrough,
    /// Patch a successful result.
    Patch(ToolResultPatch),
}

/// The arguments a hooked tool runs with, or the result that replaces the
/// run when the hook denies it.
pub fn effective_args(args: String, d: BeforeToolCallDecision) -> (r: Result<String, ToolResult>)
    ensures
        match d {
            BeforeToolCallDecision::Allow => r == Ok::<String, ToolResult>(args),
            BeforeToolCallDecision::Modify(a) => r == Ok::<String, ToolResult>(a),
            BeforeToolCallDecision::Deny(t) => r == Err::<String, ToolResult>(t),
        },
{
    match d {
        BeforeToolCallDecision::Allow => Ok(args),
        BeforeToolCallDecision::Modify(a) => Ok(a),
        BeforeToolCallDecision::Deny(t) => Err(t),
    }
}

/// The outcome an after-hook sees: a copy of the result, or the failure as
/// an execution failure carrying its text.
pub fn outcome_for_hook(r: &Result<ToolResult, ToolError>) -> (o: Result<ToolResult, ToolError>)
    ensures
        match r {
            Ok(t) => o matches Ok(t2) && t2@ == t@,
            Err(e) => o matches Err(ToolError::Execution(m)) && m@ == e.text(),
        },
{
    match r {
        Ok(t) => Ok(t.clone()),
        Err(e) => Err(ToolError::Execution(e.message())),
    }
}

/// The outcome after the after-hook: unchanged, or patched. The patch's
/// fields override the result's; its error flag overrides whether the
/// outcome is a failure: `Some(true)` turns a success into a failure carrying
/// the patched result's text, `Some(false)` turns a failure into a success
/// whose content is the patched content or else the failure's text, and
/// `None` keeps the outcome's kind (a failure then stays as it is).
pub fn after_hook_outcome(r: Result<ToolResult, ToolError>, d: AfterToolCallDecision) -> (o: Result<
    ToolResult,
    ToolError,
>)
    ensures
        match d {
            AfterToolCallDecision::Passthrough => o == r,
            AfterToolCallDecision::Patch(p) => match r {
                Ok(t) => if p.is_error == Some(true) {
                    o matches Err(ToolError::Other(m)) && m@ == crate::compaction::blocks_text(
                        patched(t@, p).content,
                    )
                } else {
                    o matches Ok(t2) && t2@ == patched(t@, p)
                },
                Err(e) => if p.is_error == Some(false) {
                    o matches Ok(t2) && (match p.content {
                        Some(c) => t2.content@ == c@,
                        None => t2.content@.len() == 1 && (t2.content@[0] matches ContentBlock::Text {
                            text,
                        } && text@ == e.text()),
                    }) && t2.details@ == (match p.details {
                        Some(x) => x@,
                        None => "null"@,
                    }) && t2.terminate == (match p.terminate {
                        Some(x) => x,
                        None => false,
                    })
                } else {
                    o == Err::<ToolResult, ToolError>(e)
                },
            },
        },
{
    match d {
        AfterToolCallDecision::Passthrough => r,
        AfterToolCallDecision::Patch(p) => {
            let flag = p.is_error;
            match r {
                Ok(t) => {
                    let t2 = apply_patch(t, p);
                    if flag == Some(true) {
                        Err(ToolError::Other(crate::compaction::blocks_to_text(&t2.content)))
                    } else {
                        Ok(t2)
                    }
                },
                Err(e) => if flag == Some(false) {
                    let mut content: Vec<ContentBlock> = Vec::new();
                    content.push(ContentBlock::Text { text: e.message() });
                    proof {
                        reveal_strlit("null");
                    }
                    let base = ToolResult { content, details: String::from_str("null"), terminate: false };
                    Ok(apply_patch(base, p))
                } else {
                    Err(e)
                },
            }
        },
    }
}

} // verus!
