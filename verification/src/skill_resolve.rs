//! Inline `$name` skill tokens: which named skills a prompt activates, the
//! joined body they set, which names matched nothing, and what is recorded
//! for the prompt afterwards. Finding the tokens in the text and the skill
//! files on disk stay with the caller.

use vstd::prelude::*;
use crate::text::{contains_seq, occurs_at, push_str, str_eq};

verus! {

/// Synthetic prompt recorded when the tokens emptied the text but a skill
/// was activated.
pub const SKILL_TRIGGER: &'static str = "The active skill is now in effect. Begin executing it now.";

/// Whether the name at `k` already occurs earlier in `names`.
pub open spec fn repeats_earlier(names: Seq<String>, k: int) -> bool {
    exists|j: int| 0 <= j < k && names[j]@ == names[k]@
}

/// A skill known on disk: its name, its body and the file it came from.
#[derive(Debug, Clone)]
pub struct KnownSkill {
    pub name: String,
    pub body: String,
    pub source: String,
}

/// The body a skill sets: a source line, a blank line, then the body.
pub open spec fn sourced_body(sk: KnownSkill) -> Seq<char> {
    "> Source: "@ + sk.source@ + "\n\n"@ + sk.body@
}

/// The sourced body of a skill.
pub fn body_with_source(sk: &KnownSkill) -> (r: String)
    ensures
        r@ == sourced_body(*sk),
{
    let mut r = String::new();
    push_str(&mut r, "> Source: ");
    push_str(&mut r, sk.source.as_str());
    push_str(&mut r, "\n\n");
    push_str(&mut r, sk.body.as_str());
    r
}

/// `k` is the first position of a skill named `name`.
pub open spec fn first_skill_at(skills: Seq<KnownSkill>, name: Seq<char>, k: int) -> bool {
    &&& 0 <= k < skills.len()
    &&& skills[k].name@ == name
    &&& forall|j: int| 0 <= j < k ==> skills[j].name@ != name
}

/// The body of the first skill named `name`.
pub open spec fn skill_named(skills: Seq<KnownSkill>, name: Seq<char>) -> Option<Seq<char>> {
    if exists|k: int| first_skill_at(skills, name, k) {
        Some(sourced_body(skills[choose|k: int| first_skill_at(skills, name, k)]))
    } else {
        None
    }
}

/// Resolving the first `n` names (duplicates after the first are
/// skipped): the bodies found, the names resolved, the names unresolved.
pub open spec fn resolve_prefix(names: Seq<String>, skills: Seq<KnownSkill>, n: nat) -> (Seq<Seq<char>>, Seq<Seq<char>>, Seq<Seq<char>>)
    decreases n,
{
    if n == 0 {
        (Seq::empty(), Seq::empty(), Seq::empty())
    } else {
        let (bodies, resolved, unresolved) = resolve_prefix(names, skills, (n - 1) as nat);
        let name = names[n - 1]@;
        if repeats_earlier(names, n - 1) {
            (bodies, resolved, unresolved)
        } else {
            match skill_named(skills, name) {
                Some(b) => (bodies.push(b), resolved.push(name), unresolved),
                None => (bodies, resolved, unresolved.push(name)),
            }
        }
    }
}

/// Bodies joined by blank lines.
pub open spec fn joined_bodies(bs: Seq<Seq<char>>) -> Seq<char>
    decreases bs.len(),
{
    if bs.len() == 0 {
        Seq::empty()
    } else if bs.len() == 1 {
        bs[0]
    } else {
        joined_bodies(bs.drop_last()) + "\n\n"@ + bs.last()
    }
}

/// The outcome of resolving a prompt's skill tokens.
#[derive(Debug, Clone)]
pub struct TokenResolution {
    /// The skill body to set, when at least one name resolved.
    pub body: Option<String>,
    /// Names that resolved, first-seen order, each once.
    pub resolved: Vec<String>,
    /// Names that matched no skill, first-seen order, each once.
    pub unresolved: Vec<String>,
}

pub open spec fn views(v: Seq<String>) -> Seq<Seq<char>> {
    v.map_values(|s: String| s@)
}

fn seen_before(names: &[String], k: usize) -> (b: bool)
    requires
        k < names@.len(),
    ensures
        b == repeats_earlier(names@, k as int),
{
    let mut j: usize = 0;
    while j < k
        invariant
            j <= k < names@.len(),
            forall|i: int| 0 <= i < j ==> names@[i]@ != names@[k as int]@,
        decreases k - j,
    {
        if str_eq(names[j].as_str(), names[k].as_str()) {
            return true;
        }
        j += 1;
    }
    false
}

fn find_skill(skills: &[KnownSkill], name: &str) -> (r: Option<usize>)
    ensures
        match r {
            Some(k) => k < skills@.len() && skill_named(skills@, name@) == Some(sourced_body(skills@[k as int])),
            None => skill_named(skills@, name@) is None,
        },
{
    let mut k: usize = 0;
    while k < skills.len()
        invariant
            k <= skills@.len(),
            forall|j: int| 0 <= j < k ==> skills@[j].name@ != name@,
        decreases skills.len() - k,
    {
        if str_eq(skills[k].name.as_str(), name) {
            proof {
                assert(first_skill_at(skills@, name@, k as int));
                let w = choose|w: int| first_skill_at(skills@, name@, w);
                if w < k {
                    assert(skills@[w].name@ != name@);
                } else if w > k {
                    assert(skills@[k as int].name@ != name@);
                }
            }
            return Some(k);
        }
        k += 1;
    }
    None
}

/// Resolve the skill names a prompt carries (in order) against the known
/// skills. Repeated names count once; resolved bodies are joined by blank
/// lines into the skill to set.
pub fn resolve_skill_names(names: &[String], skills: &[KnownSkill]) -> (r: TokenResolution)
    ensures
        ({
            let (bodies, resolved, unresolved) = resolve_prefix(names@, skills@, names@.len() as nat);
            &&& views(r.resolved@) == resolved
            &&& views(r.unresolved@) == unresolved
            &&& bodies.len() == 0 ==> r.body is None
            &&& bodies.len() > 0 ==> (r.body matches Some(b) && b@ == joined_bodies(bodies))
        }),
{
    let mut joined = String::new();
    let mut n_bodies: usize = 0;
    let mut resolved: Vec<String> = Vec::new();
    let mut unresolved: Vec<String> = Vec::new();
    let mut k: usize = 0;
    while k < names.len()
        invariant
            k <= names@.len(),
            views(resolved@) == resolve_prefix(names@, skills@, k as nat).1,
            views(unresolved@) == resolve_prefix(names@, skills@, k as nat).2,
            n_bodies == resolve_prefix(names@, skills@, k as nat).0.len(),
            joined@ == joined_bodies(resolve_prefix(names@, skills@, k as nat).0),
            resolve_prefix(names@, skills@, k as nat).0.len() <= k,
        decreases names.len() - k,
    {
        if !seen_before(names, k) {
            match find_skill(skills, names[k].as_str()) {
                Some(i) => {
                    let ghost before = joined@;
                    if n_bodies > 0 {
                        push_str(&mut joined, "\n\n");
                    }
                    let sourced = body_with_source(&skills[i]);
                    push_str(&mut joined, sourced.as_str());
                    n_bodies = n_bodies + 1;
                    resolved.push(names[k].clone());
                    proof {
                        let bodies = resolve_prefix(names@, skills@, k as nat).0;
                        let nb = bodies.push(sourced_body(skills@[i as int]));
                        assert(nb.drop_last() =~= bodies);
                        if bodies.len() == 0 {
                            assert(joined@ =~= joined_bodies(nb));
                        }
                        assert(views(resolved@) =~= views(resolved@.drop_last()).push(names@[k as int]@));
                    }
                },
                None => {
                    unresolved.push(names[k].clone());
                    proof {
                        assert(views(unresolved@) =~= views(unresolved@.drop_last()).push(names@[k as int]@));
                    }
                },
            }
        }
        k += 1;
    }
    let body = if n_bodies > 0 {
        Some(joined)
    } else {
        None
    };
    TokenResolution { body, resolved, unresolved }
}

/// What is recorded for a prompt after its tokens were resolved.
#[derive(Debug, Clone, Copy, PartialEq, Eq)]
pub enum RecordAction {
    /// The cleaned text (with any images) as the user message.
    Message,
    /// The synthetic skill trigger: tokens emptied the text and one of this
    /// prompt's own names resolved.
    Trigger,
    /// Nothing: the text emptied without a skill resolved by this prompt.
    Nothing,
}

pub fn record_action(text_blank: bool, has_images: bool, resolved_now: bool) -> (r: RecordAction)
    ensures
        r == (if text_blank && !has_images {
            if resolved_now {
                RecordAction::Trigger
            } else {
                RecordAction::Nothing
            }
        } else {
            RecordAction::Message
        }),
{
    if text_blank && !has_images {
        if resolved_now {
            RecordAction::Trigger
        } else {
            RecordAction::Nothing
        }
    } else {
        RecordAction::Message
    }
}


/// Law: the joined body of one skill is that skill's body, and each further
/// skill adds a blank line and its body at the end, so nothing is dropped
/// or reordered.
pub proof fn joining_appends_each_body(bs: Seq<Seq<char>>, b: Seq<char>)
    ensures
        joined_bodies(seq![b]) == b,
        bs.len() > 0 ==> joined_bodies(bs.push(b)) == joined_bodies(bs) + "\n\n"@ + b,
{
    assert(bs.push(b).drop_last() =~= bs);
}

proof fn lemma_body_occurs(bs: Seq<Seq<char>>, i: int)
    requires
        0 <= i < bs.len(),
    ensures
        contains_seq(joined_bodies(bs), bs[i]),
    decreases bs.len(),
{
    let j = joined_bodies(bs);
    if bs.len() == 1 {
        assert(j == bs[0]);
        assert(j.subrange(0, bs[i].len() as int) =~= bs[i]);
        assert(occurs_at(j, bs[i], 0));
    } else {
        let pre = joined_bodies(bs.drop_last());
        assert(j == pre + "\n\n"@ + bs.last());
        if i < bs.len() - 1 {
            lemma_body_occurs(bs.drop_last(), i);
            assert(bs.drop_last()[i] == bs[i]);
            let p = choose|p: int| occurs_at(pre, bs[i], p);
            assert(j.subrange(p, p + bs[i].len()) =~= pre.subrange(p, p + bs[i].len()));
            assert(occurs_at(j, bs[i], p));
        } else {
            let p: int = (pre.len() + "\n\n"@.len()) as int;
            assert(bs[i] == bs.last());
            assert(j.subrange(p, p + bs[i].len()) =~= bs.last());
            assert(occurs_at(j, bs[i], p));
        }
    }
}

/// Law: every resolved name has its skill's sourced body in the joined
/// body, one body per resolved name, in the order the names were resolved.
pub proof fn every_resolved_skill_is_in_the_body(names: Seq<String>, skills: Seq<KnownSkill>, n: nat)
    ensures
        resolve_prefix(names, skills, n).0.len() == resolve_prefix(names, skills, n).1.len(),
        forall|i: int|
            0 <= i < resolve_prefix(names, skills, n).0.len() ==> skill_named(
                skills,
                resolve_prefix(names, skills, n).1[i],
            ) == Some(#[trigger] resolve_prefix(names, skills, n).0[i]),
        forall|i: int|
            0 <= i < resolve_prefix(names, skills, n).0.len() ==> contains_seq(
                joined_bodies(resolve_prefix(names, skills, n).0),
                #[trigger] resolve_prefix(names, skills, n).0[i],
            ),
    decreases n,
{
    let bodies = resolve_prefix(names, skills, n).0;
    let resolved = resolve_prefix(names, skills, n).1;
    if n > 0 {
        every_resolved_skill_is_in_the_body(names, skills, (n - 1) as nat);
        let b0 = resolve_prefix(names, skills, (n - 1) as nat).0;
        let r0 = resolve_prefix(names, skills, (n - 1) as nat).1;
        let name = names[n - 1]@;
        if repeats_earlier(names, n - 1) {
            assert(bodies == b0 && resolved == r0);
        } else {
            match skill_named(skills, name) {
                Some(b) => {
                    assert(bodies == b0.push(b) && resolved == r0.push(name));
                    assert forall|i: int| 0 <= i < bodies.len() implies skill_named(skills, resolved[i]) == Some(
                        #[trigger] bodies[i],
                    ) by {
                        if i < b0.len() {
                            assert(bodies[i] == b0[i]);
                            assert(resolved[i] == r0[i]);
                        }
                    }
                },
                None => {
                    assert(bodies == b0 && resolved == r0);
                },
            }
        }
    }
    assert forall|i: int| 0 <= i < bodies.len() implies contains_seq(joined_bodies(bodies), #[trigger] bodies[i]) by {
        lemma_body_occurs(bodies, i);
    }
}

} // verus!
