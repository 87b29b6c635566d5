//! Decisions of the agent loop between provider turns: the doom-loop
//! guard over repeated tool calls, the blocks an assistant turn and its tool
//! batch are recorded as, the compaction retry policy, and what the loop
//! does after a turn and after a tool batch. Streaming, tool execution and
//! persistence stay with the caller, which performs the returned actions.

use vstd::prelude::*;
use crate::dedup::{CompletedToolCall, ToolOutput};
use crate::drain::MAX_CONSUME_STREAK;
use crate::strmap::StrMap;
use crate::tool_guard::FailureMap;
use crate::text::{push_decimal, push_str, str_eq, decimal};

verus! {

/// Identical consecutive tool calls that stop the run.
pub const DOOM_THRESHOLD: usize = 20;

/// Tool output is capped at this many bytes.
pub const MAX_OUTPUT: usize = 4096;

/// Content of the synthetic result each call of a doom-looped batch gets.
pub const DOOM_SKIPPED: &'static str = "doom-loop: tool execution skipped";

/// The signature a tool call is compared by: its name, a colon, its input.
pub open spec fn signature_of(c: CompletedToolCall) -> Seq<char> {
    c.name@ + ":"@ + c.input@
}

/// The signature of a tool call.
pub fn doom_signature(c: &CompletedToolCall) -> (s: String)
    ensures
        s@ == signature_of(*c),
{
    let mut s = String::new();
    push_str(&mut s, c.name.as_str());
    push_str(&mut s, ":");
    push_str(&mut s, c.input.as_str());
    s
}

/// The last `DOOM_THRESHOLD` signatures of `h` are all `sig`.
pub open spec fn full_run_of(h: Seq<Seq<char>>, sig: Seq<char>) -> bool {
    &&& h.len() >= DOOM_THRESHOLD
    &&& forall|i: int| h.len() - DOOM_THRESHOLD <= i < h.len() ==> h[i] == sig
}

/// The most recent `DOOM_THRESHOLD` entries of `h` (all of them when fewer).
pub open spec fn recent(h: Seq<Seq<char>>) -> Seq<Seq<char>> {
    if h.len() > DOOM_THRESHOLD {
        h.subrange(h.len() - DOOM_THRESHOLD, h.len() as int)
    } else {
        h
    }
}

pub open spec fn views(v: Seq<String>) -> Seq<Seq<char>> {
    v.map_values(|s: String| s@)
}

/// The sliding window of recent tool-call signatures.
pub struct DoomWindow {
    window: Vec<String>,
    pushed: Ghost<Seq<Seq<char>>>,
}

impl DoomWindow {
    /// The signatures pushed since the window was made or last cleared.
    pub closed spec fn history(&self) -> Seq<Seq<char>> {
        self.pushed@
    }

    pub closed spec fn wf(&self) -> bool {
        views(self.window@) == recent(self.pushed@)
    }

    pub fn new() -> (w: Self)
        ensures
            w.wf(),
            w.history() == Seq::<Seq<char>>::empty(),
    {
        let w = DoomWindow { window: Vec::new(), pushed: Ghost(Seq::empty()) };
        proof {
            assert(views(w.window@) =~= recent(w.pushed@));
        }
        w
    }

    /// Forget every signature (after compaction or a cancelled turn).
    pub fn clear(&mut self)
        ensures
            final(self).wf(),
            final(self).history() == Seq::<Seq<char>>::empty(),
    {
        self.window = Vec::new();
        self.pushed = Ghost(Seq::empty());
        proof {
            assert(views(self.window@) =~= recent(self.pushed@));
        }
    }

    /// Record one signature; `true` when the last `DOOM_THRESHOLD`
    /// signatures are all this one.
    pub fn push(&mut self, sig: String) -> (tripped: bool)
        requires
            old(self).wf(),
        ensures
            final(self).wf(),
            final(self).history() == old(self).history().push(sig@),
            tripped == full_run_of(final(self).history(), sig@),
    {
        let ghost hd = self.pushed@;
        let ghost h = hd.push(sig@);
        let ghost sv = sig@;
        self.window.push(sig);
        proof {
            assert(views(self.window@) =~= recent(hd).push(sv));
        }
        if self.window.len() > DOOM_THRESHOLD {
            self.window.remove(0);
            proof {
                assert(views(self.window@) =~= recent(hd).push(sv).drop_first());
                assert(recent(hd).push(sv).drop_first() =~= recent(h));
            }
        } else {
            proof {
                assert(recent(hd).push(sv) =~= recent(h));
            }
        }
        self.pushed = Ghost(h);
        if self.window.len() < DOOM_THRESHOLD {
            proof {
                assert(h.len() < DOOM_THRESHOLD);
            }
            return false;
        }
        let n = self.window.len();
        let mut i: usize = 0;
        while i < n
            invariant
                n == self.window@.len() == DOOM_THRESHOLD,
                self.pushed@ == h,
                h == old(self).history().push(sig@),
                h.len() >= DOOM_THRESHOLD,
                views(self.window@) == recent(h),
                h.last() == sig@,
                i <= n,
                forall|j: int| 0 <= j < i ==> self.window@[j]@ == h.last(),
            decreases n - i,
        {
            let last = n - 1;
            if !str_eq(self.window[i].as_str(), self.window[last].as_str()) {
                proof {
                    let k = h.len() - DOOM_THRESHOLD + i;
                    assert(views(self.window@)[i as int] == self.window@[i as int]@);
                    assert(views(self.window@)[last as int] == self.window@[last as int]@);
                    assert(recent(h)[last as int] == h.last());
                    assert(h[k] != sig@);
                }
                return false;
            }
            proof {
                assert(views(self.window@)[last as int] == self.window@[last as int]@);
                assert(recent(h)[last as int] == h.last());
            }
            i += 1;
        }
        proof {
            assert forall|j: int| h.len() - DOOM_THRESHOLD <= j < h.len() implies h[j] == sig@ by {
                let k = j - (h.len() - DOOM_THRESHOLD);
                assert(views(self.window@)[k] == self.window@[k]@);
                assert(recent(h)[k] == h[j]);
            }
        }
        true
    }
}

/// The index of the first call at which pushing the batch's signatures
/// onto `h` trips the guard.
pub open spec fn first_trip(h: Seq<Seq<char>>, calls: Seq<CompletedToolCall>) -> Option<int>
    decreases calls.len(),
{
    if calls.len() == 0 {
        None
    } else {
        let h1 = h.push(signature_of(calls[0]));
        if full_run_of(h1, signature_of(calls[0])) {
            Some(0)
        } else {
            match first_trip(h1, calls.drop_first()) {
                Some(k) => Some(k + 1),
                None => None,
            }
        }
    }
}

/// The signatures of the calls.
pub open spec fn signatures(calls: Seq<CompletedToolCall>) -> Seq<Seq<char>> {
    calls.map_values(|c: CompletedToolCall| signature_of(c))
}

proof fn lemma_first_trip_step(h: Seq<Seq<char>>, calls: Seq<CompletedToolCall>, i: int)
    requires
        0 <= i < calls.len(),
        forall|j: int| #![trigger calls[j]] 0 <= j < i ==> !full_run_of(h + signatures(calls).take(j + 1), signature_of(calls[j])),
    ensures
        full_run_of(h + signatures(calls).take(i + 1), signature_of(calls[i])) ==> first_trip(h, calls) == Some(i),
        !full_run_of(h + signatures(calls).take(i + 1), signature_of(calls[i])) && i + 1 == calls.len()
            ==> first_trip(h, calls) is None,
    decreases i,
{
    let h1 = h.push(signature_of(calls[0]));
    assert(h + signatures(calls).take(1) =~= h1);
    if i == 0 {
        if calls.len() == 1 {
            assert(calls.drop_first().len() == 0);
        }
    } else {
        let rest = calls.drop_first();
        assert forall|j: int| #![trigger rest[j]] 0 <= j < i - 1 implies !full_run_of(
            h1 + signatures(rest).take(j + 1),
            signature_of(rest[j]),
        ) by {
            assert(h1 + signatures(rest).take(j + 1) =~= h + signatures(calls).take(j + 2));
            assert(rest[j] == calls[j + 1]);
        }
        assert(!full_run_of(h + signatures(calls).take(1), signature_of(calls[0])));
        lemma_first_trip_step(h1, rest, i - 1);
        assert(h1 + signatures(rest).take(i) =~= h + signatures(calls).take(i + 1));
        assert(rest[i - 1] == calls[i]);
    }
}

impl DoomWindow {
    /// Push the signatures of a batch of calls in order, stopping at the
    /// first call that trips the guard; returns that call's index.
    pub fn check_batch(&mut self, calls: &[CompletedToolCall]) -> (r: Option<usize>)
        requires
            old(self).wf(),
        ensures
            final(self).wf(),
            r == (match first_trip(old(self).history(), calls@) {
                Some(k) => Some(k as usize),
                None => None,
            }),
            match r {
                Some(k) => final(self).history() == old(self).history() + signatures(calls@).take(k + 1),
                None => final(self).history() == old(self).history() + signatures(calls@),
            },
    {
        let ghost h0 = self.history();
        let mut i: usize = 0;
        while i < calls.len()
            invariant
                self.wf(),
                i <= calls@.len(),
                self.history() == h0 + signatures(calls@).take(i as int),
                h0 == old(self).history(),
                forall|j: int| #![trigger calls@[j]] 0 <= j < i ==> !full_run_of(h0 + signatures(calls@).take(j + 1), signature_of(calls@[j])),
            decreases calls.len() - i,
        {
            let sig = doom_signature(&calls[i]);
            let ghost sv = sig@;
            let ghost hb = self.history();
            let tripped = self.push(sig);
            proof {
                assert(sv == signature_of(calls@[i as int]));
                assert(self.history() == hb.push(sv));
                assert(h0 + signatures(calls@).take(i + 1) =~= (h0 + signatures(calls@).take(i as int)).push(
                    signature_of(calls@[i as int]),
                ));
                lemma_first_trip_step(h0, calls@, i as int);
            }
            if tripped {
                proof {
                    assert(self.history() =~= h0 + signatures(calls@).take(i + 1));
                    assert(first_trip(h0, calls@) == Some(i as int));
                }
                return Some(i);
            }
            i += 1;
        }
        proof {
            if calls@.len() == 0 {
            } else {
                lemma_first_trip_step(h0, calls@, calls@.len() - 1);
            }
            assert(signatures(calls@).take(calls@.len() as int) =~= signatures(calls@));
        }
        None
    }
}

/// Text of the error event a doom loop raises.
pub open spec fn doom_message() -> Seq<char> {
    "doom-loop: same tool repeated "@ + decimal(DOOM_THRESHOLD as nat) + "x, stopping"@
}

/// Text of the error a doom loop ends the run with.
pub open spec fn doom_error() -> Seq<char> {
    "doom-loop: same tool repeated "@ + decimal(DOOM_THRESHOLD as nat) + "x"@
}

/// The two doom-loop texts: the error event and the run's error.
pub fn doom_texts() -> (r: (String, String))
    ensures
        r.0@ == doom_message(),
        r.1@ == doom_error(),
{
    let mut a = String::new();
    push_str(&mut a, "doom-loop: same tool repeated ");
    push_decimal(&mut a, DOOM_THRESHOLD as u64);
    let mut b = a.clone();
    push_str(&mut a, "x, stopping");
    push_str(&mut b, "x");
    (a, b)
}

/// A content block of a recorded message.
#[derive(Debug, Clone)]
pub enum Block {
    Reasoning(String),
    Text(String),
    ToolUse { id: String, name: String, input: String },
    ToolResult { tool_use_id: String, content: String, is_error: bool, images: Vec<String> },
}

/// Block `b` is the tool-use block of call `c`.
pub open spec fn uses(b: Block, c: CompletedToolCall) -> bool {
    b matches Block::ToolUse { id, name, input } && id@ == c.id@ && name@ == c.name@ && input@ == c.input@
}

/// Block `b` is the result of call `c` with output `o`.
pub open spec fn answers(b: Block, c: CompletedToolCall, o: ToolOutput) -> bool {
    b matches Block::ToolResult { tool_use_id, content, is_error, images }
        && tool_use_id@ == c.id@ && content@ == o.content@ && is_error == o.is_error && views(images@) == views(o.images@)
}

/// How many leading blocks precede the tool uses of an assistant turn.
pub open spec fn lead_blocks(interleaved: bool, reasoning: Seq<char>, text: Seq<char>, n_calls: nat) -> nat {
    (if interleaved && n_calls > 0 && reasoning.len() > 0 { 1nat } else { 0nat }) + (if text.len() > 0 { 1nat } else { 0nat })
}

/// The blocks an assistant turn is recorded with: its reasoning (only when
/// interleaved thinking is on and the turn calls tools), its text when not
/// empty, then one tool-use block per call in order.
pub fn assistant_blocks(interleaved: bool, reasoning: String, text: String, calls: &[CompletedToolCall]) -> (r: Vec<Block>)
    ensures
        ({
            let with_r = interleaved && calls@.len() > 0 && reasoning@.len() > 0;
            let lead = lead_blocks(interleaved, reasoning@, text@, calls@.len());
            &&& r@.len() == lead + calls@.len()
            &&& with_r ==> (r@[0] matches Block::Reasoning(t) && t@ == reasoning@)
            &&& text@.len() > 0 ==> (r@[lead - 1] matches Block::Text(t) && t@ == text@)
            &&& forall|k: int| 0 <= k < calls@.len() ==> uses(#[trigger] r@[lead + k], calls@[k])
        }),
{
    let mut r: Vec<Block> = Vec::new();
    let with_r = interleaved && calls.len() > 0 && !reasoning.as_str().is_empty();
    if with_r {
        r.push(Block::Reasoning(reasoning));
    }
    if !text.as_str().is_empty() {
        r.push(Block::Text(text));
    }
    let ghost lead = r@.len();
    let ghost head = r@;
    proof {
        assert(lead == lead_blocks(interleaved, reasoning@, text@, calls@.len()));
    }
    let mut i: usize = 0;
    while i < calls.len()
        invariant
            r@.len() == lead + i,
            i <= calls@.len(),
            head.len() == lead,
            r@.subrange(0, lead as int) == head,
            forall|k: int| 0 <= k < i ==> uses(#[trigger] r@[lead + k], calls@[k]),
        decreases calls.len() - i,
    {
        let c = &calls[i];
        r.push(Block::ToolUse { id: c.id.clone(), name: c.name.clone(), input: c.input.clone() });
        proof {
            assert(r@.subrange(0, lead as int) =~= head);
        }
        i += 1;
    }
    proof {
        if lead > 0 {
            assert(r@.subrange(0, lead as int)[0] == r@[0]);
            assert(r@.subrange(0, lead as int)[lead - 1] == r@[lead - 1]);
        }
    }
    r
}

/// The result blocks of a tool batch, in the order of `results`, each
/// answering the call its index names.
pub fn result_blocks(calls: &[CompletedToolCall], results: Vec<(usize, ToolOutput)>) -> (r: Vec<Block>)
    requires
        forall|k: int| 0 <= k < results@.len() ==> (#[trigger] results@[k]).0 < calls@.len(),
    ensures
        r@.len() == results@.len(),
        forall|k: int| 0 <= k < results@.len() ==> answers(#[trigger] r@[k], calls@[results@[k].0 as int], results@[k].1),
{
    let mut r: Vec<Block> = Vec::new();
    let mut i: usize = 0;
    while i < results.len()
        invariant
            r@.len() == i,
            i <= results@.len(),
            forall|k: int| 0 <= k < results@.len() ==> (#[trigger] results@[k]).0 < calls@.len(),
            forall|k: int| 0 <= k < i ==> answers(#[trigger] r@[k], calls@[results@[k].0 as int], results@[k].1),
        decreases results.len() - i,
    {
        let idx = results[i].0;
        let out = &results[i].1;
        let imgs = clone_strings(&out.images);
        r.push(Block::ToolResult {
            tool_use_id: calls[idx].id.clone(),
            content: out.content.clone(),
            is_error: out.is_error,
            images: imgs,
        });
        i += 1;
    }
    r
}

fn clone_strings(v: &Vec<String>) -> (r: Vec<String>)
    ensures
        views(r@) == views(v@),
{
    let mut r: Vec<String> = Vec::new();
    let mut i: usize = 0;
    while i < v.len()
        invariant
            i <= v@.len(),
            r@.len() == i,
            forall|k: int| 0 <= k < i ==> (#[trigger] r@[k])@ == v@[k]@,
        decreases v.len() - i,
    {
        r.push(v[i].clone());
        i += 1;
    }
    proof {
        assert(views(r@) =~= views(v@));
    }
    r
}

/// The synthetic results recorded for a doom-looped batch: one error per
/// call, in call order.
pub fn doom_results(calls: &[CompletedToolCall]) -> (r: Vec<Block>)
    ensures
        r@.len() == calls@.len(),
        forall|k: int| 0 <= k < calls@.len() ==> (#[trigger] r@[k] matches Block::ToolResult { tool_use_id, content, is_error, images }
            && tool_use_id@ == calls@[k].id@ && content@ == DOOM_SKIPPED@ && is_error && images@.len() == 0),
{
    let mut r: Vec<Block> = Vec::new();
    let mut i: usize = 0;
    while i < calls.len()
        invariant
            r@.len() == i,
            i <= calls@.len(),
            forall|k: int| 0 <= k < i ==> (#[trigger] r@[k] matches Block::ToolResult { tool_use_id, content, is_error, images }
                && tool_use_id@ == calls@[k].id@ && content@ == DOOM_SKIPPED@ && is_error && images@.len() == 0),
        decreases calls.len() - i,
    {
        r.push(Block::ToolResult {
            tool_use_id: calls[i].id.clone(),
            content: DOOM_SKIPPED.to_string(),
            is_error: true,
            images: Vec::new(),
        });
        i += 1;
    }
    r
}

/// `b` answers a call whose subagent can still be replayed.
pub open spec fn is_replayable(b: Block, replayable: Seq<Seq<char>>) -> bool {
    b matches Block::ToolResult { tool_use_id, .. } && replayable.contains(tool_use_id@)
}

/// The blocks kept when a hard cancel interrupts a tool batch: all but the
/// results of calls whose subagent can be replayed later, in order.
pub open spec fn kept_on_cancel(bs: Seq<Block>, replayable: Seq<Seq<char>>) -> Seq<Block>
    decreases bs.len(),
{
    if bs.len() == 0 {
        Seq::empty()
    } else {
        let rest = kept_on_cancel(bs.drop_first(), replayable);
        if is_replayable(bs[0], replayable) {
            rest
        } else {
            seq![bs[0]] + rest
        }
    }
}

fn contains_str(v: &[String], s: &str) -> (b: bool)
    ensures
        b == views(v@).contains(s@),
{
    let mut i: usize = 0;
    while i < v.len()
        invariant
            i <= v@.len(),
            forall|j: int| 0 <= j < i ==> v@[j]@ != s@,
        decreases v.len() - i,
    {
        if str_eq(v[i].as_str(), s) {
            proof {
                assert(views(v@)[i as int] == s@);
            }
            return true;
        }
        i += 1;
    }
    proof {
        if views(v@).contains(s@) {
            let j = choose|j: int| 0 <= j < views(v@).len() && views(v@)[j] == s@;
            assert(v@[j]@ == s@);
        }
    }
    false
}

/// Drop the results of replayable calls from a cancelled batch.
pub fn non_replayable(blocks: Vec<Block>, replayable: &[String]) -> (r: Vec<Block>)
    ensures
        r@ == kept_on_cancel(blocks@, views(replayable@)),
{
    let ghost orig = blocks@;
    let mut blocks = blocks;
    let mut r: Vec<Block> = Vec::new();
    while blocks.len() > 0
        invariant
            r@ + kept_on_cancel(blocks@, views(replayable@)) == kept_on_cancel(orig, views(replayable@)),
        decreases blocks.len(),
    {
        let ghost before = blocks@;
        let b = blocks.remove(0);
        proof {
            assert(blocks@ =~= before.drop_first());
        }
        let keep = match &b {
            Block::ToolResult { tool_use_id, .. } => !contains_str(replayable, tool_use_id.as_str()),
            _ => true,
        };
        if keep {
            let ghost r0 = r@;
            r.push(b);
            proof {
                assert(r@ + kept_on_cancel(blocks@, views(replayable@)) =~= r0 + kept_on_cancel(before, views(replayable@)));
            }
        }
    }
    proof {
        assert(r@ + kept_on_cancel(blocks@, views(replayable@)) =~= r@);
    }
    r
}

/// Why the tool-failure guard stopped the run: the tool with the most
/// consecutive failures, or a generic reason when none is recorded.
pub open spec fn failure_detail(worst: Option<(Seq<char>, u32)>) -> Seq<char> {
    match worst {
        Some((n, c)) => "'"@ + n + "' failed "@ + decimal(c as nat) + "x consecutively"@,
        None => "threshold reached"@,
    }
}

/// The error event and the run error of a tripped tool-failure guard.
pub open spec fn failure_texts(detail: Seq<char>) -> (Seq<char>, Seq<char>) {
    ("tool-failure guard: "@ + detail + ", stopping"@, "tool-failure guard: "@ + detail)
}

/// The texts a tripped tool-failure guard reports, from the worst entry of
/// the failure map.
pub fn failure_guard_texts(worst: Option<(&str, u32)>) -> (r: (String, String))
    ensures
        ({
            let d = failure_detail(match worst {
                Some((n, c)) => Some((n@, c)),
                None => None,
            });
            r.0@ == failure_texts(d).0 && r.1@ == failure_texts(d).1
        }),
{
    let mut d = String::new();
    match worst {
        Some((n, c)) => {
            push_str(&mut d, "'");
            push_str(&mut d, n);
            push_str(&mut d, "' failed ");
            push_decimal(&mut d, c as u64);
            push_str(&mut d, "x consecutively");
        },
        None => {
            push_str(&mut d, "threshold reached");
        },
    }
    let mut a = String::new();
    push_str(&mut a, "tool-failure guard: ");
    push_str(&mut a, d.as_str());
    let b = a.clone();
    push_str(&mut a, ", stopping");
    (a, b)
}

/// The guard state a run carries across turns: the doom-loop window, the
/// consecutive-failure counts, and the first bash timeout of the current
/// streak (its content and input).
pub struct TurnGuards {
    pub doom: DoomWindow,
    pub failures: FailureMap,
    pub timeout_first: Option<(String, String)>,
}

impl TurnGuards {
    pub open spec fn wf(&self) -> bool {
        self.doom.wf() && self.failures.wf()
    }

    /// The guards hold nothing.
    pub open spec fn is_clear(&self) -> bool {
        &&& self.doom.history() == Seq::<Seq<char>>::empty()
        &&& self.failures.map() == Map::<Seq<char>, u32>::empty()
        &&& self.timeout_first is None
    }

    pub fn new() -> (g: Self)
        ensures
            g.wf(),
            g.is_clear(),
    {
        TurnGuards { doom: DoomWindow::new(), failures: StrMap::new(), timeout_first: None }
    }

    /// Forget everything the guards learned: compaction or a cancelled turn
    /// discards the partial work they were counting.
    pub fn reset(&mut self)
        ensures
            final(self).wf(),
            final(self).is_clear(),
    {
        self.doom.clear();
        self.failures = StrMap::new();
        self.timeout_first = None;
    }
}

/// What one compaction attempt produced.
#[derive(Debug, Clone, Copy, PartialEq, Eq)]
pub enum CompactResult {
    /// The transcript was replaced by a summary.
    Summarized,
    /// There was nothing to summarize.
    NothingToSummarize,
    /// The attempt failed.
    Failed,
}

/// What the loop does after a compaction attempt.
#[derive(Debug, Clone, Copy, PartialEq, Eq)]
pub enum CompactAction {
    /// Announce the transcript reset and the summary, then go on.
    Announce,
    /// Go on with the transcript as it is: it still fits.
    Proceed,
    /// Give up: nothing to summarize and the transcript does not fit.
    TooLarge,
    /// Report a retry and try again.
    Retry,
    /// Give up after the last failed attempt.
    Fail,
}

/// Compaction is attempted at most three times (attempts 0, 1, 2).
pub const COMPACTION_ATTEMPTS: u8 = 3;

/// The decision after compaction attempt `attempt`; `fits` says whether the
/// transcript is under the hard context limit as it stands.
pub fn compaction_action(attempt: u8, result: CompactResult, fits: bool) -> (r: CompactAction)
    requires
        attempt < COMPACTION_ATTEMPTS,
    ensures
        r == (match result {
            CompactResult::Summarized => CompactAction::Announce,
            CompactResult::NothingToSummarize => if fits {
                CompactAction::Proceed
            } else {
                CompactAction::TooLarge
            },
            CompactResult::Failed => if attempt + 1 < COMPACTION_ATTEMPTS {
                CompactAction::Retry
            } else {
                CompactAction::Fail
            },
        }),
{
    match result {
        CompactResult::Summarized => CompactAction::Announce,
        CompactResult::NothingToSummarize => if fits {
            CompactAction::Proceed
        } else {
            CompactAction::TooLarge
        },
        CompactResult::Failed => if attempt + 1 < COMPACTION_ATTEMPTS {
            CompactAction::Retry
        } else {
            CompactAction::Fail
        },
    }
}

/// The status shown before compaction attempt `attempt + 1`.
pub open spec fn compaction_retry_status(attempt: u8) -> Seq<char> {
    "compaction retry "@ + decimal((attempt + 1) as nat) + "/"@ + decimal((COMPACTION_ATTEMPTS - 1) as nat)
}

pub fn compaction_retry_text(attempt: u8) -> (s: String)
    requires
        attempt < COMPACTION_ATTEMPTS,
    ensures
        s@ == compaction_retry_status(attempt),
{
    let mut s = String::new();
    push_str(&mut s, "compaction retry ");
    push_decimal(&mut s, attempt as u64 + 1);
    push_str(&mut s, "/");
    push_decimal(&mut s, (COMPACTION_ATTEMPTS - 1) as u64);
    s
}

/// The error a compaction gives up with when nothing could be summarized.
pub const NOTHING_TO_SUMMARIZE: &'static str = "transcript exceeds context window but compaction found nothing to summarize";

/// What the loop does once the provider turn returned.
#[derive(Debug, Clone, Copy, PartialEq, Eq)]
pub enum AfterTurn {
    /// A steer interrupted the turn: end the round, clear the interrupt and
    /// the guards, and start the next turn.
    Resume,
    /// A hard cancel: end the round, send `Done`, stop.
    Stop,
    /// Record the assistant message.
    Record,
}

pub fn after_llm_turn(turn_cancelled: bool, hard_cancelled: bool) -> (r: AfterTurn)
    ensures
        r == (if turn_cancelled {
            AfterTurn::Resume
        } else if hard_cancelled {
            AfterTurn::Stop
        } else {
            AfterTurn::Record
        }),
{
    if turn_cancelled {
        AfterTurn::Resume
    } else if hard_cancelled {
        AfterTurn::Stop
    } else {
        AfterTurn::Record
    }
}

/// What the loop does after recording the assistant message.
#[derive(Debug, Clone, Copy, PartialEq, Eq)]
pub enum AfterRecord {
    /// A steer interrupted during recording: clear it and the guards, next turn.
    Resume,
    /// No tool calls: the idle boundary drains one queued input.
    IdleDrain,
    /// Run the tool calls.
    RunTools,
}

pub fn after_record(has_tool_calls: bool, turn_cancelled: bool) -> (r: AfterRecord)
    ensures
        r == (if has_tool_calls {
            AfterRecord::RunTools
        } else if turn_cancelled {
            AfterRecord::Resume
        } else {
            AfterRecord::IdleDrain
        }),
{
    if has_tool_calls {
        AfterRecord::RunTools
    } else if turn_cancelled {
        AfterRecord::Resume
    } else {
        AfterRecord::IdleDrain
    }
}

/// What the loop does after a tool batch ran.
#[derive(Debug, Clone, Copy, PartialEq, Eq)]
pub enum AfterBatch {
    /// Hard cancel: record the results that cannot be replayed, end the
    /// round, report the interrupt, send `Done`, stop.
    StopCancelled,
    /// A steer interrupted the batch: record the results, next turn.
    Resume,
    /// The tool-failure guard tripped: record the results, stop with its error.
    GuardTripped,
    /// Record the results and take the next turn.
    Next,
}

pub fn after_tool_batch(hard_cancelled: bool, turn_interrupted: bool, failure_tripped: bool) -> (r: AfterBatch)
    ensures
        r == (if hard_cancelled {
            AfterBatch::StopCancelled
        } else if turn_interrupted {
            AfterBatch::Resume
        } else if failure_tripped {
            AfterBatch::GuardTripped
        } else {
            AfterBatch::Next
        }),
{
    if hard_cancelled {
        AfterBatch::StopCancelled
    } else if turn_interrupted {
        AfterBatch::Resume
    } else if failure_tripped {
        AfterBatch::GuardTripped
    } else {
        AfterBatch::Next
    }
}

/// A drain-mode step consumed an input without a provider turn: the new
/// streak, and whether it reached the cap (the run then goes idle).
pub fn bump_consume_streak(streak: u32) -> (r: (u32, bool))
    requires
        streak < MAX_CONSUME_STREAK,
    ensures
        r.0 == streak + 1,
        r.1 == (streak + 1 >= MAX_CONSUME_STREAK),
{
    let s = streak + 1;
    (s, s >= MAX_CONSUME_STREAK)
}

/// A bare control command drained at the last idle boundary skips the
/// provider turn, unless a steer was just recorded.
pub fn idle_before_turn(skip_llm: bool, steer_recorded: bool) -> (b: bool)
    ensures
        b == (skip_llm && !steer_recorded),
{
    skip_llm && !steer_recorded
}

} // verus!
