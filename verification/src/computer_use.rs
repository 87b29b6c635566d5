//! The `computer_use` tool's parameters and its report of a replayed
//! action plan. Running the perceive-act loop stays with the caller.

use vstd::prelude::*;
use crate::research::clamped_or;
use crate::text::{chars_of, decimal, push_decimal, push_str, string_from_range, trim, trim_range};

verus! {

/// How the loop ended.
#[derive(Debug, Clone, Copy, PartialEq, Eq)]
pub enum LoopOutcome {
    Done,
    MaxStepsReached,
}

pub open spec fn outcome_label(o: LoopOutcome) -> Seq<char> {
    match o {
        LoopOutcome::Done => "done"@,
        LoopOutcome::MaxStepsReached => "max_steps_reached"@,
    }
}

/// One executed action: its kind and its fields as JSON text.
#[derive(Debug, Clone)]
pub struct RecordedAction {
    pub kind: String,
    pub fields: String,
}

pub open spec fn action_lines(actions: Seq<RecordedAction>, k: nat) -> Seq<char>
    decreases k,
{
    if k == 0 {
        Seq::empty()
    } else {
        action_lines(actions, (k - 1) as nat) + "  ["@ + decimal((k - 1) as nat) + "] "@ + actions[k - 1].kind@
            + " "@ + actions[k - 1].fields@ + "\n"@
    }
}

/// The report: task, outcome, final text, the executed actions, and a note
/// when no plan was supplied.
pub open spec fn report_text(
    prompt: Seq<char>,
    outcome: LoopOutcome,
    final_text: Seq<char>,
    actions: Seq<RecordedAction>,
    had_plan: bool,
) -> Seq<char> {
    "task: "@ + prompt + "\n"@ + "outcome: "@ + outcome_label(outcome) + "\n"@ + "final: "@ + final_text + "\n"@
        + "actions_executed: "@ + decimal(actions.len()) + "\n"@ + action_lines(actions, actions.len()) + (if had_plan {
        Seq::empty()
    } else {
        "note: no `actions` plan supplied. Live LLM-driven perceive->act against a provider sandbox is the next milestone; provide an `actions` plan to exercise the loop deterministically."@
    })
}

/// The `computer_use` tool's identity and decisions.
pub struct ComputerUseTool {}

impl ComputerUseTool {
    pub fn name(&self) -> (r: &'static str)
        ensures
            r@ == "computer_use"@,
    {
        "computer_use"
    }

    pub fn description(&self) -> (r: &'static str)
        ensures
            r@ == "Drive a computer-use agent loop (perceive -> act -> repeat). Supply a `prompt` describing the task and an optional `actions` plan to replay; returns the executed action trace and the loop outcome (done / max_steps). First version replays the plan in a sandbox executor; live provider-driven execution is in progress."@,
    {
        "Drive a computer-use agent loop (perceive -> act -> repeat). Supply a `prompt` describing the task and an optional `actions` plan to replay; returns the executed action trace and the loop outcome (done / max_steps). First version replays the plan in a sandbox executor; live provider-driven execution is in progress."
    }

    /// The trimmed prompt; `None` when missing or blank.
    pub fn prompt_of(raw: Option<&str>) -> (r: Option<String>)
        ensures
            match raw {
                None => r is None,
                Some(p) => if trim(p@).len() == 0 {
                    r is None
                } else {
                    r matches Some(t) && t@ == trim(p@)
                },
            },
    {
        match raw {
            None => None,
            Some(p) => {
                let v = chars_of(p);
                assert(v@.subrange(0, v@.len() as int) =~= v@);
                let (a, b) = trim_range(&v, 0, v.len());
                if a == b {
                    None
                } else {
                    Some(string_from_range(&v, a, b))
                }
            },
        }
    }

    /// The step budget: `max_steps`, default 25, within `[1, 200]`.
    pub fn max_steps_of(v: Option<u64>) -> (r: u64)
        ensures
            r == clamped_or(v, 25, 1, 200),
    {
        let x = match v {
            Some(x) => x,
            None => 25,
        };
        if x < 1 {
            1
        } else if x > 200 {
            200
        } else {
            x
        }
    }

    pub fn report(
        prompt: &str,
        outcome: LoopOutcome,
        final_text: &str,
        actions: &[RecordedAction],
        had_plan: bool,
    ) -> (r: String)
        requires
            actions@.len() < u64::MAX,
        ensures
            r@ == report_text(prompt@, outcome, final_text@, actions@, had_plan),
    {
        let mut out = String::new();
        push_str(&mut out, "task: ");
        push_str(&mut out, prompt);
        push_str(&mut out, "\n");
        push_str(&mut out, "outcome: ");
        match outcome {
            LoopOutcome::Done => push_str(&mut out, "done"),
            LoopOutcome::MaxStepsReached => push_str(&mut out, "max_steps_reached"),
        }
        push_str(&mut out, "\n");
        push_str(&mut out, "final: ");
        push_str(&mut out, final_text);
        push_str(&mut out, "\n");
        push_str(&mut out, "actions_executed: ");
        push_decimal(&mut out, actions.len() as u64);
        push_str(&mut out, "\n");
        let ghost head = out@;
        let mut i: usize = 0;
        while i < actions.len()
            invariant
                i <= actions@.len() < u64::MAX,
                out@ == head + action_lines(actions@, i as nat),
            decreases actions.len() - i,
        {
            push_str(&mut out, "  [");
            push_decimal(&mut out, i as u64);
            push_str(&mut out, "] ");
            push_str(&mut out, actions[i].kind.as_str());
            push_str(&mut out, " ");
            push_str(&mut out, actions[i].fields.as_str());
            push_str(&mut out, "\n");
            assert(out@ =~= head + action_lines(actions@, (i + 1) as nat));
            i += 1;
        }
        if !had_plan {
            push_str(
                &mut out,
                "note: no `actions` plan supplied. Live LLM-driven perceive->act against a provider sandbox is the next milestone; provide an `actions` plan to exercise the loop deterministically.",
            );
        }
        assert(out@ =~= report_text(prompt@, outcome, final_text@, actions@, had_plan));
        out
    }
}

} // verus!
