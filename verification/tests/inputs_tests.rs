use session::drain::DrainOutcome;
use session::inputs::{
    claim_bound, queued_action, remaining_seqs, InputKind, QueuedAction, SteerApplyOutcome, SteerBatch,
    SteerItemAction,
};

const BARE: InputKind = InputKind::Command { clears_context: false, seed_preserved: false, has_rest: false };
const COMPOUND: InputKind = InputKind::Command { clears_context: false, seed_preserved: false, has_rest: true };
const BLANK_CLEAR: InputKind = InputKind::Command { clears_context: true, seed_preserved: false, has_rest: false };
const SEEDED_CLEAR: InputKind = InputKind::Command { clears_context: true, seed_preserved: true, has_rest: false };

#[test]
fn queued_inputs() {
    assert_eq!(queued_action(true, InputKind::Prompt), (QueuedAction::Unpromote, DrainOutcome::Empty));
    assert_eq!(queued_action(false, InputKind::Prompt), (QueuedAction::RecordPrompt, DrainOutcome::Prompt));
    assert_eq!(queued_action(false, COMPOUND), (QueuedAction::ApplyAndRecordRest, DrainOutcome::Prompt));
    assert_eq!(queued_action(false, SEEDED_CLEAR), (QueuedAction::Apply, DrainOutcome::Prompt));
    assert_eq!(queued_action(false, BLANK_CLEAR), (QueuedAction::Apply, DrainOutcome::ControlCmd));
    assert_eq!(queued_action(false, BARE), (QueuedAction::Apply, DrainOutcome::ControlCmd));
}

#[test]
fn steer_batch_with_a_prompt_continues() {
    let mut b = SteerBatch::new();
    assert_eq!(b.item(false, BARE), SteerItemAction::Apply);
    assert_eq!(b.item(false, InputKind::Prompt), SteerItemAction::RecordPrompt);
    assert_eq!(b.finish(), SteerApplyOutcome::Continue { recorded: true });
}

#[test]
fn bare_command_batch_goes_idle() {
    let mut b = SteerBatch::new();
    b.item(false, BARE);
    assert_eq!(b.finish(), SteerApplyOutcome::Done);
}

#[test]
fn blank_clear_last_goes_idle_even_after_a_prompt() {
    let mut b = SteerBatch::new();
    b.item(false, InputKind::Prompt);
    b.item(false, BLANK_CLEAR);
    assert_eq!(b.finish(), SteerApplyOutcome::Done);
    let mut c = SteerBatch::new();
    c.item(false, BLANK_CLEAR);
    c.item(false, COMPOUND);
    assert_eq!(c.finish(), SteerApplyOutcome::Continue { recorded: true });
}

#[test]
fn empty_batch_continues_unrecorded() {
    assert_eq!(SteerBatch::new().finish(), SteerApplyOutcome::Continue { recorded: false });
}

#[test]
fn cancel_interrupts_and_hands_back_the_rest() {
    let mut b = SteerBatch::new();
    b.item(false, InputKind::Prompt);
    assert_eq!(b.item(true, InputKind::Prompt), SteerItemAction::Interrupt);
    assert_eq!(remaining_seqs(&[7, 8, 9], 1), vec![8, 9]);
    assert_eq!(remaining_seqs(&[7], 1), Vec::<i64>::new());
}

#[test]
fn claim_bound_is_the_largest_admission() {
    assert_eq!(claim_bound(&[]), 0);
    assert_eq!(claim_bound(&[3, 9, 4]), 9);
    assert_eq!(claim_bound(&[-2]), -2);
}

#[test]
fn claim_failure_text() {
    assert_eq!(session::inputs::claim_failed_text("locked"), "queued input claim failed: locked");
}
