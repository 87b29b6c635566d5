//! Applying claimed inputs: what a queued input or each item of a steer
//! batch becomes (a recorded prompt, an applied control command, or an
//! interrupt that hands the rest back), what the batch tells the loop, and
//! the promotion bound of a claim. Reading, promoting and recording inputs
//! stay with the caller.

use vstd::prelude::*;
use crate::drain::DrainOutcome;

verus! {

/// A claimed input: a prompt, or a control command (whether it clears the
/// context, whether that clear preserved a seed, and whether text follows).
#[derive(Debug, Clone, Copy, PartialEq, Eq)]
pub enum InputKind {
    Prompt,
    Command { clears_context: bool, seed_preserved: bool, has_rest: bool },
}

/// What happens to a claimed queued input.
#[derive(Debug, Clone, Copy, PartialEq, Eq)]
pub enum QueuedAction {
    /// A cancel fired after the claim: hand the row back, nothing applied.
    Unpromote,
    /// Record it as the user's prompt.
    RecordPrompt,
    /// Apply the command, then record the text after it as the prompt.
    ApplyAndRecordRest,
    /// Apply the command only.
    Apply,
}

/// The action for a claimed queued input and what the drain reports: a
/// context clear that preserved a seed counts as a prompt (the model is to
/// see the seed); any other bare command as a control command.
pub fn queued_action(cancelled: bool, kind: InputKind) -> (r: (QueuedAction, DrainOutcome))
    ensures
        r == (if cancelled {
            (QueuedAction::Unpromote, DrainOutcome::Empty)
        } else {
            match kind {
                InputKind::Prompt => (QueuedAction::RecordPrompt, DrainOutcome::Prompt),
                InputKind::Command { clears_context, seed_preserved, has_rest } => if has_rest {
                    (QueuedAction::ApplyAndRecordRest, DrainOutcome::Prompt)
                } else if clears_context && seed_preserved {
                    (QueuedAction::Apply, DrainOutcome::Prompt)
                } else {
                    (QueuedAction::Apply, DrainOutcome::ControlCmd)
                },
            }
        }),
{
    if cancelled {
        return (QueuedAction::Unpromote, DrainOutcome::Empty);
    }
    match kind {
        InputKind::Prompt => (QueuedAction::RecordPrompt, DrainOutcome::Prompt),
        InputKind::Command { clears_context, seed_preserved, has_rest } => if has_rest {
            (QueuedAction::ApplyAndRecordRest, DrainOutcome::Prompt)
        } else if clears_context && seed_preserved {
            (QueuedAction::Apply, DrainOutcome::Prompt)
        } else {
            (QueuedAction::Apply, DrainOutcome::ControlCmd)
        },
    }
}

/// What happens to one item of a steer batch.
#[derive(Debug, Clone, Copy, PartialEq, Eq)]
pub enum SteerItemAction {
    /// A hard cancel: hand this item and the rest back, report the
    /// interrupt, send `Done`; the batch ends `Cancelled`.
    Interrupt,
    /// Announce it consumed and record it as a prompt.
    RecordPrompt,
    /// Announce it consumed, apply the command, record the rest.
    ApplyAndRecordRest,
    /// Announce it consumed and apply the command.
    Apply,
}

/// What an applied steer batch tells the loop.
#[derive(Debug, Clone, Copy, PartialEq, Eq)]
pub enum SteerApplyOutcome {
    /// Go on to the turn; `recorded` says whether a prompt was recorded.
    Continue { recorded: bool },
    /// Send `Done` and end the run without a turn.
    Done,
    /// The batch was interrupted.
    Cancelled,
}

/// The last item left the blank-sentinel context clear in force.
pub open spec fn sentinel_after(items: Seq<InputKind>) -> bool {
    if items.len() == 0 {
        false
    } else {
        match items.last() {
            InputKind::Command { clears_context, seed_preserved, has_rest } => clears_context && !seed_preserved && !has_rest,
            InputKind::Prompt => false,
        }
    }
}

/// Some item recorded a prompt.
pub open spec fn recorded_any(items: Seq<InputKind>) -> bool {
    exists|k: int|
        0 <= k < items.len() && (#[trigger] items[k] matches InputKind::Command { has_rest, .. } ==> has_rest)
}

/// What a fully applied batch of `items` tells the loop.
pub open spec fn batch_outcome(items: Seq<InputKind>) -> SteerApplyOutcome {
    if sentinel_after(items) {
        SteerApplyOutcome::Done
    } else if items.len() > 0 && !recorded_any(items) {
        SteerApplyOutcome::Done
    } else {
        SteerApplyOutcome::Continue { recorded: recorded_any(items) }
    }
}

/// The state of a steer batch being applied.
pub struct SteerBatch {
    sentinel: bool,
    recorded: bool,
    any: bool,
    applied: Ghost<Seq<InputKind>>,
}

proof fn lemma_recorded_push(before: Seq<InputKind>, kind: InputKind)
    ensures
        recorded_any(before.push(kind)) == (recorded_any(before) || (kind matches InputKind::Command { has_rest, .. } ==> has_rest)),
{
    let after = before.push(kind);
    assert(after[before.len() as int] == kind);
    if recorded_any(before) {
        let k = choose|k: int|
            0 <= k < before.len() && (#[trigger] before[k] matches InputKind::Command { has_rest, .. } ==> has_rest);
        assert(after[k] == before[k]);
    }
    if recorded_any(after) && !recorded_any(before) {
        let k = choose|k: int|
            0 <= k < after.len() && (#[trigger] after[k] matches InputKind::Command { has_rest, .. } ==> has_rest);
        if k < before.len() {
            assert(after[k] == before[k]);
        }
    }
}

impl SteerBatch {
    /// The items applied so far.
    pub closed spec fn items(&self) -> Seq<InputKind> {
        self.applied@
    }

    pub closed spec fn wf(&self) -> bool {
        &&& self.sentinel == sentinel_after(self.applied@)
        &&& self.recorded == recorded_any(self.applied@)
        &&& self.any == (self.applied@.len() > 0)
    }

    pub fn new() -> (b: Self)
        ensures
            b.wf(),
            b.items() == Seq::<InputKind>::empty(),
    {
        SteerBatch { sentinel: false, recorded: false, any: false, applied: Ghost(Seq::empty()) }
    }

    /// The action for the next item; a cancel interrupts before the item
    /// is applied, otherwise it counts as applied.
    pub fn item(&mut self, cancelled: bool, kind: InputKind) -> (r: SteerItemAction)
        requires
            old(self).wf(),
        ensures
            final(self).wf(),
            cancelled ==> r == SteerItemAction::Interrupt && final(self).items() == old(self).items(),
            !cancelled ==> final(self).items() == old(self).items().push(kind) && r == (match kind {
                InputKind::Prompt => SteerItemAction::RecordPrompt,
                InputKind::Command { has_rest, .. } => if has_rest {
                    SteerItemAction::ApplyAndRecordRest
                } else {
                    SteerItemAction::Apply
                },
            }),
    {
        if cancelled {
            return SteerItemAction::Interrupt;
        }
        let ghost before = self.applied@;
        proof {
            lemma_recorded_push(before, kind);
        }
        self.applied = Ghost(before.push(kind));
        self.any = true;
        match kind {
            InputKind::Prompt => {
                self.sentinel = false;
                self.recorded = true;
                SteerItemAction::RecordPrompt
            },
            InputKind::Command { clears_context, seed_preserved, has_rest } => {
                if has_rest {
                    self.sentinel = false;
                    self.recorded = true;
                    SteerItemAction::ApplyAndRecordRest
                } else {
                    self.sentinel = clears_context && !seed_preserved;
                    SteerItemAction::Apply
                }
            },
        }
    }

    /// What the applied batch tells the loop.
    pub fn finish(&self) -> (r: SteerApplyOutcome)
        requires
            self.wf(),
        ensures
            r == batch_outcome(self.items()),
    {
        if self.sentinel {
            SteerApplyOutcome::Done
        } else if self.any && !self.recorded {
            SteerApplyOutcome::Done
        } else {
            SteerApplyOutcome::Continue { recorded: self.recorded }
        }
    }
}

/// The sequence numbers handed back when a batch stops at item `from`:
/// that item and every later one.
pub fn remaining_seqs(seqs: &[i64], from: usize) -> (r: Vec<i64>)
    requires
        from <= seqs@.len(),
    ensures
        r@ == seqs@.subrange(from as int, seqs@.len() as int),
{
    let mut r: Vec<i64> = Vec::new();
    let mut i = from;
    while i < seqs.len()
        invariant
            from <= i <= seqs@.len(),
            r@ == seqs@.subrange(from as int, i as int),
        decreases seqs.len() - i,
    {
        r.push(seqs[i]);
        proof {
            assert(r@ =~= seqs@.subrange(from as int, i + 1));
        }
        i += 1;
    }
    r
}

/// The promotion bound of a claim: the largest admission number among the
/// pending inputs, 0 when there are none.
pub fn claim_bound(admitted: &[i64]) -> (r: i64)
    ensures
        admitted@.len() == 0 ==> r == 0,
        admitted@.len() > 0 ==> (exists|k: int| 0 <= k < admitted@.len() && admitted@[k] == r) && (forall|k: int|
            0 <= k < admitted@.len() ==> admitted@[k] <= r),
{
    if admitted.len() == 0 {
        return 0;
    }
    let mut best = admitted[0];
    let mut i: usize = 1;
    while i < admitted.len()
        invariant
            1 <= i <= admitted@.len(),
            exists|k: int| 0 <= k < i && admitted@[k] == best,
            forall|k: int| 0 <= k < i ==> admitted@[k] <= best,
        decreases admitted.len() - i,
    {
        if admitted[i] > best {
            best = admitted[i];
        }
        i += 1;
    }
    best
}

/// The error event when claiming a queued input failed twice.
pub open spec fn claim_failed(err: Seq<char>) -> Seq<char> {
    "queued input claim failed: "@ + err
}

pub fn claim_failed_text(err: &str) -> (r: String)
    ensures
        r@ == claim_failed(err@),
{
    let mut r = String::new();
    crate::text::push_str(&mut r, "queued input claim failed: ");
    crate::text::push_str(&mut r, err);
    r
}

} // verus!
