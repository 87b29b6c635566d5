//! The rendezvous between the `question` tool and an interactive frontend.
//!
//! The tool registers a waiting question under its tool-call id; the
//! frontend resolves the id with the user's answer. Either side may come
//! first: an answer that arrives before the tool registers is parked and
//! handed to the next `ask` for that id, exactly once. With no attached
//! listener the tool answers with a fixed fallback so headless runs never
//! block.
//!
//! The hub is generic in the handle `S` through which a waiting tool call
//! receives its answer (a channel sender in the application); the hub never
//! looks inside it, it only hands back the handle registered for an id.

use vstd::prelude::*;
use crate::strmap::StrMap;
use crate::text::{chars_of, trim, trim_range};

verus! {

/// Tool result when no interactive listener is attached.
pub const NO_LISTENER_REPLY: &'static str = "No interactive user is attached to this session. Proceed with your best judgment and state the assumption in the plan.";

/// Tool result when the answer channel closed without a value.
pub const SKIPPED_REPLY: &'static str = "User skipped the question. Proceed with your best judgment.";

/// Tool error when the call carries no usable question.
pub const MISSING_QUESTION_ERROR: &'static str = "missing required parameter: question";

/// The abstract state of a hub.
pub struct HubModel<S> {
    pub attached: bool,
    /// Tool calls waiting for an answer, with the handle each one waits on.
    pub waiting: Map<Seq<char>, S>,
    /// Answers that arrived before their tool call registered.
    pub early: Map<Seq<char>, Seq<char>>,
}

/// What `resolve` does with an answer.
pub enum Resolution<S> {
    /// The tool call was waiting: send the answer through its handle.
    Deliver(S, String),
    /// Nobody was waiting: the answer is parked for the next `ask`.
    Parked,
}

/// What `ask` finds.
#[derive(Debug, PartialEq, Eq)]
pub enum AskOutcome {
    /// An answer had already been parked for this id.
    Answered(String),
    /// Registered; the answer arrives through the handle given to `ask`.
    Pending,
}

/// The state after `resolve(id, answer)`.
pub open spec fn resolve_next<S>(m: HubModel<S>, id: Seq<char>, answer: Seq<char>) -> HubModel<S> {
    if m.waiting.contains_key(id) {
        HubModel { waiting: m.waiting.remove(id), ..m }
    } else {
        HubModel { early: m.early.insert(id, answer), ..m }
    }
}

/// The answer `ask(id)` returns at once, if one is parked.
pub open spec fn parked_answer<S>(m: HubModel<S>, id: Seq<char>) -> Option<Seq<char>> {
    if m.early.contains_key(id) {
        Some(m.early[id])
    } else {
        None
    }
}

/// The state after `ask(id, handle)`.
pub open spec fn ask_next<S>(m: HubModel<S>, id: Seq<char>, handle: S) -> HubModel<S> {
    if m.early.contains_key(id) {
        HubModel { early: m.early.remove(id), ..m }
    } else {
        HubModel { waiting: m.waiting.insert(id, handle), ..m }
    }
}

/// The state after `abandon(id)`.
pub open spec fn abandon_next<S>(m: HubModel<S>, id: Seq<char>) -> HubModel<S> {
    HubModel { waiting: m.waiting.remove(id), ..m }
}

/// Shared state between the question tool and an interactive frontend.
pub struct QuestionHub<S> {
    attached: bool,
    waiting: StrMap<S>,
    early: StrMap<String>,
}

impl<S> View for QuestionHub<S> {
    type V = HubModel<S>;

    closed spec fn view(&self) -> HubModel<S> {
        HubModel {
            attached: self.attached,
            waiting: self.waiting.map(),
            early: self.early.map().map_values(|a: String| a@),
        }
    }
}

impl<S> QuestionHub<S> {
    /// Both tables hold each id at most once.
    pub closed spec fn wf(&self) -> bool {
        self.waiting.wf() && self.early.wf()
    }

    /// A fresh hub: detached, nothing waiting, nothing parked.
    pub fn new() -> (h: Self)
        ensures
            h.wf(),
            !h@.attached,
            h@.waiting == Map::<Seq<char>, S>::empty(),
            h@.early == Map::<Seq<char>, Seq<char>>::empty(),
    {
        let h = QuestionHub { attached: false, waiting: StrMap::new(), early: StrMap::new() };
        assert(h@.early =~= Map::<Seq<char>, Seq<char>>::empty());
        h
    }

    /// Mark an interactive listener as present.
    pub fn attach(&mut self)
        requires
            old(self).wf(),
        ensures
            final(self).wf(),
            final(self)@ == (HubModel { attached: true, ..old(self)@ }),
    {
        self.attached = true;
    }

    /// Whether an interactive listener has attached.
    pub fn is_attached(&self) -> (b: bool)
        ensures
            b == self@.attached,
    {
        self.attached
    }

    /// Deliver `answer` for `id`: to the waiting tool call if there is one
    /// (its registration ends), else parked for the next `ask` of `id`.
    pub fn resolve(&mut self, id: &str, answer: String) -> (r: Resolution<S>)
        requires
            old(self).wf(),
        ensures
            final(self).wf(),
            final(self)@ == resolve_next(old(self)@, id@, answer@),
            match r {
                Resolution::Deliver(h, a) => old(self)@.waiting.contains_key(id@) && h
                    == old(self)@.waiting[id@] && a == answer,
                Resolution::Parked => !old(self)@.waiting.contains_key(id@),
            },
    {
        let ghost before = self@;
        match self.waiting.remove(id) {
            Some(h) => {
                assert(self@.early =~= before.early);
                assert(self@ == resolve_next(before, id@, answer@));
                Resolution::Deliver(h, answer)
            },
            None => {
                let ghost a = answer@;
                let key = id.to_string();
                self.early.insert(key, answer);
                assert(self@.waiting =~= before.waiting);
                assert(self@.early =~= before.early.insert(id@, a));
                Resolution::Parked
            },
        }
    }

    /// Forget a waiting tool call without answering it. Never parks
    /// anything.
    pub fn abandon(&mut self, id: &str)
        requires
            old(self).wf(),
        ensures
            final(self).wf(),
            final(self)@ == abandon_next(old(self)@, id@),
    {
        let ghost before = self@;
        let _dropped = self.waiting.remove(id);
        assert(self@.early =~= before.early);
    }

    /// Register the tool side of `id`, waiting on `handle`: a parked answer
    /// is taken (and `handle` dropped), else the call waits.
    pub fn ask(&mut self, id: &str, handle: S) -> (r: AskOutcome)
        requires
            old(self).wf(),
        ensures
            final(self).wf(),
            final(self)@ == ask_next(old(self)@, id@, handle),
            match r {
                AskOutcome::Answered(a) => parked_answer(old(self)@, id@) == Some(a@),
                AskOutcome::Pending => parked_answer(old(self)@, id@) is None,
            },
    {
        let ghost before = self@;
        match self.early.remove(id) {
            Some(a) => {
                assert(self@.waiting =~= before.waiting);
                assert(self@.early =~= before.early.remove(id@));
                AskOutcome::Answered(a)
            },
            None => {
                self.waiting.insert(id.to_string(), handle);
                assert(self@.early =~= before.early);
                AskOutcome::Pending
            },
        }
    }

    /// Number of tool calls still waiting for an answer.
    pub fn waiting_count(&self) -> (n: usize)
        requires
            self.wf(),
        ensures
            self@.waiting.dom().finite(),
            n == self@.waiting.dom().len(),
    {
        proof {
            self.waiting.lemma_len();
        }
        self.waiting.len()
    }
}

/// An answer parked before its tool call registered is handed to the next
/// `ask` for that id, and only to that one: a second `ask` waits.
pub proof fn parked_answer_is_consumed_once<S>(m: HubModel<S>, id: Seq<char>, answer: Seq<char>, h1: S, h2: S)
    requires
        !m.waiting.contains_key(id),
    ensures
        parked_answer(resolve_next(m, id, answer), id) == Some(answer),
        parked_answer(ask_next(resolve_next(m, id, answer), id, h1), id) is None,
        ask_next(ask_next(resolve_next(m, id, answer), id, h1), id, h2).waiting == m.waiting.insert(id, h2),
{
}

/// A question asked and then answered delivers the answer through the
/// handle it registered, and leaves nothing waiting or parked for the id.
pub proof fn asked_question_gets_its_answer<S>(m: HubModel<S>, id: Seq<char>, answer: Seq<char>, h: S)
    requires
        !m.early.contains_key(id),
    ensures
        ask_next(m, id, h).waiting.contains_key(id),
        ask_next(m, id, h).waiting[id] == h,
        !resolve_next(ask_next(m, id, h), id, answer).waiting.contains_key(id),
        !resolve_next(ask_next(m, id, h), id, answer).early.contains_key(id),
        !m.waiting.contains_key(id) ==> resolve_next(ask_next(m, id, h), id, answer).waiting == m.waiting,
{
    assert(!m.waiting.contains_key(id) ==> m.waiting.insert(id, h).remove(id) =~= m.waiting);
}

/// Abandoning a question never parks an answer and ends its registration,
/// so the next `ask` for the id waits again.
pub proof fn abandon_leaves_no_residue<S>(m: HubModel<S>, id: Seq<char>, h: S)
    ensures
        abandon_next(m, id).early == m.early,
        !abandon_next(m, id).waiting.contains_key(id),
        !m.early.contains_key(id) ==> parked_answer(abandon_next(ask_next(m, id, h), id), id) is None,
{
}

/// The step the question tool takes for a call.
#[derive(Debug, PartialEq, Eq, Clone, Copy)]
pub enum QuestionStep {
    /// The call carries no non-blank question: answer with an error.
    MissingQuestion,
    /// No listener is attached: answer with the fallback at once.
    NoListener,
    /// Register with the hub and wait for the user's answer.
    Ask,
}

/// The question tool's fixed identity.
pub struct QuestionTool {}

impl QuestionTool {
    pub fn name(&self) -> (s: &'static str)
        ensures
            s@ == seq!['q', 'u', 'e', 's', 't', 'i', 'o', 'n'],
    {
        proof {
            reveal_strlit("question");
        }
        "question"
    }

    pub fn description(&self) -> (r: &'static str)
        ensures
            r@ == "Ask the user a clarifying question. Use ONLY when the answer would change the plan and the requirement is genuinely ambiguous; you may ask several in one turn (one per call)."@,
    {
        "Ask the user a clarifying question. Use ONLY when the answer would change the plan and the requirement is genuinely ambiguous; you may ask several in one turn (one per call)."
    }

    /// What to do with a call whose `question` parameter is `question`
    /// (absent when missing or not a string).
    pub fn first_step(question: Option<&str>, attached: bool) -> (r: QuestionStep)
        ensures
            r == (match question {
                None => QuestionStep::MissingQuestion,
                Some(q) => if trim(q@).len() == 0 {
                    QuestionStep::MissingQuestion
                } else if !attached {
                    QuestionStep::NoListener
                } else {
                    QuestionStep::Ask
                },
            }),
    {
        match question {
            None => QuestionStep::MissingQuestion,
            Some(q) => {
                let v = chars_of(q);
                let (s, e) = trim_range(&v, 0, v.len());
                assert(v@.subrange(0, v@.len() as int) =~= v@);
                if s == e {
                    QuestionStep::MissingQuestion
                } else if !attached {
                    QuestionStep::NoListener
                } else {
                    QuestionStep::Ask
                }
            },
        }
    }

    /// The tool result once the wait is over: the answer, or the skip
    /// notice when the channel closed without one.
    pub fn reply_for(answer: Option<String>) -> (r: String)
        ensures
            answer is Some ==> r@ == answer->0@,
            answer is None ==> r@ == SKIPPED_REPLY@,
    {
        match answer {
            Some(a) => a,
            None => SKIPPED_REPLY.to_string(),
        }
    }
}

} // verus!
