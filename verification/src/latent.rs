//! Latent tool gating: tools that exist in the registry but stay hidden
//! from the model until the skill that owns them is active.
//!
//! `question` is owned by the `task-plan` skill and `ssh_pty` by the
//! `ssh-pty` skill. A skill prompt body names its skills through
//! `> Source: <path>` lines (resolved exactly to the directory or file stem
//! under `skills/`); a body without any such line falls back to scanning
//! its first 500 characters for the skill identifiers.

use vstd::prelude::*;
use crate::text::{
    chars_of, contains_in_range, contains_seq, find_char, lemma_next_char, line_ranges, lines,
    next_char, pieces_from, range_eq, starts_with, starts_with_in_range, str_eq, trim, trim_range,
    ends_with, is_unicode_ws, lemma_next_newline, lemma_trim_end_index, lemma_trim_start_index,
    lines_from, next_newline, strip_cr, trim_end_index, trim_start_index,
};

verus! {

broadcast use vstd::seq::group_seq_axioms;

pub open spec fn question_tool() -> Seq<char> {
    seq!['q', 'u', 'e', 's', 't', 'i', 'o', 'n']
}

pub open spec fn ssh_pty_tool() -> Seq<char> {
    seq!['s', 's', 'h', '_', 'p', 't', 'y']
}

pub open spec fn task_plan_skill() -> Seq<char> {
    seq!['t', 'a', 's', 'k', '-', 'p', 'l', 'a', 'n']
}

pub open spec fn ssh_pty_skill() -> Seq<char> {
    seq!['s', 's', 'h', '-', 'p', 't', 'y']
}

/// The tool names that are latent.
pub open spec fn is_latent(name: Seq<char>) -> bool {
    name == question_tool() || name == ssh_pty_tool()
}

/// The latent tools that activating `skill` unlocks.
pub open spec fn tools_for_skill(skill: Seq<char>) -> Seq<Seq<char>> {
    if skill == task_plan_skill() {
        seq![question_tool()]
    } else if skill == ssh_pty_skill() {
        seq![ssh_pty_tool()]
    } else {
        Seq::empty()
    }
}

/// A set of builtin skill names (`task-plan`, `ssh-pty`).
#[derive(Clone, Copy, Debug, PartialEq, Eq)]
pub struct SkillNames {
    pub task_plan: bool,
    pub ssh_pty: bool,
}

impl View for SkillNames {
    type V = Set<Seq<char>>;

    open spec fn view(&self) -> Set<Seq<char>> {
        Set::new(
            |n: Seq<char>|
                (self.task_plan && n == task_plan_skill()) || (self.ssh_pty && n == ssh_pty_skill()),
        )
    }
}

impl SkillNames {
    pub fn contains(&self, name: &str) -> (b: bool)
        ensures
            b == self@.contains(name@),
    {
        let v = chars_of(name);
        let tp = ['t', 'a', 's', 'k', '-', 'p', 'l', 'a', 'n'];
        let sp = ['s', 's', 'h', '-', 'p', 't', 'y'];
        assert(tp@ =~= task_plan_skill());
        assert(sp@ =~= ssh_pty_skill());
        assert(v@.subrange(0, v@.len() as int) =~= v@);
        (self.task_plan && range_eq(&v, 0, v.len(), &tp)) || (self.ssh_pty && range_eq(
            &v,
            0,
            v.len(),
            &sp,
        ))
    }

    pub fn is_empty(&self) -> (b: bool)
        ensures
            b == (self@ =~= Set::<Seq<char>>::empty()),
    {
        proof {
            if self.task_plan {
                assert(self@.contains(task_plan_skill()));
            }
            if self.ssh_pty {
                assert(self@.contains(ssh_pty_skill()));
            }
        }
        !self.task_plan && !self.ssh_pty
    }
}

/// A set of latent tool names (`question`, `ssh_pty`).
#[derive(Clone, Copy, Debug, PartialEq, Eq)]
pub struct ToolNames {
    pub question: bool,
    pub ssh_pty: bool,
}

impl View for ToolNames {
    type V = Set<Seq<char>>;

    open spec fn view(&self) -> Set<Seq<char>> {
        Set::new(
            |n: Seq<char>|
                (self.question && n == question_tool()) || (self.ssh_pty && n == ssh_pty_tool()),
        )
    }
}

impl ToolNames {
    pub fn contains(&self, name: &str) -> (b: bool)
        ensures
            b == self@.contains(name@),
    {
        let v = chars_of(name);
        let q = ['q', 'u', 'e', 's', 't', 'i', 'o', 'n'];
        let sp = ['s', 's', 'h', '_', 'p', 't', 'y'];
        assert(q@ =~= question_tool());
        assert(sp@ =~= ssh_pty_tool());
        assert(v@.subrange(0, v@.len() as int) =~= v@);
        (self.question && range_eq(&v, 0, v.len(), &q)) || (self.ssh_pty && range_eq(
            &v,
            0,
            v.len(),
            &sp,
        ))
    }

    pub fn is_empty(&self) -> (b: bool)
        ensures
            b == (self@ =~= Set::<Seq<char>>::empty()),
    {
        proof {
            if self.question {
                assert(self@.contains(question_tool()));
            }
            if self.ssh_pty {
                assert(self@.contains(ssh_pty_tool()));
            }
        }
        !self.question && !self.ssh_pty
    }
}

/// True when `name` is a latent tool.
pub fn is_latent_tool(name: &str) -> (b: bool)
    ensures
        b == is_latent(name@),
{
    let v = chars_of(name);
    let q = ['q', 'u', 'e', 's', 't', 'i', 'o', 'n'];
    let sp = ['s', 's', 'h', '_', 'p', 't', 'y'];
    assert(q@ =~= question_tool());
    assert(sp@ =~= ssh_pty_tool());
    assert(v@.subrange(0, v@.len() as int) =~= v@);
    range_eq(&v, 0, v.len(), &q) || range_eq(&v, 0, v.len(), &sp)
}

/// The tool names unlocked by activating `skill_name`; empty for unknown
/// or non-latent skills.
pub fn latent_tools_for_skill(skill_name: &str) -> (r: Vec<&'static str>)
    ensures
        r@.len() == tools_for_skill(skill_name@).len(),
        forall|k: int| 0 <= k < r@.len() ==> (#[trigger] r@[k])@ == tools_for_skill(skill_name@)[k],
{
    let v = chars_of(skill_name);
    let tp = ['t', 'a', 's', 'k', '-', 'p', 'l', 'a', 'n'];
    let sp = ['s', 's', 'h', '-', 'p', 't', 'y'];
    assert(tp@ =~= task_plan_skill());
    assert(sp@ =~= ssh_pty_skill());
    assert(v@.subrange(0, v@.len() as int) =~= v@);
    let mut r: Vec<&'static str> = Vec::new();
    if range_eq(&v, 0, v.len(), &tp) {
        let q = "question";
        proof {
            reveal_strlit("question");
        }
        assert(q@ =~= question_tool());
        r.push(q);
    } else if range_eq(&v, 0, v.len(), &sp) {
        let t = "ssh_pty";
        proof {
            reveal_strlit("ssh_pty");
        }
        assert(t@ =~= ssh_pty_tool());
        r.push(t);
    }
    r
}

/// The latent tools unlocked by a collection of active skill names.
pub open spec fn unlocked_by_names(names: Seq<Seq<char>>) -> Set<Seq<char>> {
    Set::new(
        |t: Seq<char>|
            exists|i: int, k: int|
                0 <= i < names.len() && 0 <= k < tools_for_skill(names[i]).len()
                    && #[trigger] tools_for_skill(names[i])[k] == t,
    )
}

/// The latent tools unlocked by the active skill names; non-latent tools
/// are never included.
pub fn unlocked_tools(skill_names: &Vec<String>) -> (r: ToolNames)
    ensures
        r@ == unlocked_by_names(skill_names@.map_values(|s: String| s@)),
{
    let ghost names = skill_names@.map_values(|s: String| s@);
    let mut out = ToolNames { question: false, ssh_pty: false };
    let mut i: usize = 0;
    while i < skill_names.len()
        invariant
            i <= skill_names@.len(),
            names == skill_names@.map_values(|s: String| s@),
            out.question <==> exists|j: int| 0 <= j < i && names[j] == task_plan_skill(),
            out.ssh_pty <==> exists|j: int| 0 <= j < i && names[j] == ssh_pty_skill(),
        decreases skill_names.len() - i,
    {
        let tools = latent_tools_for_skill(skill_names[i].as_str());
        assert(names[i as int] == skill_names@[i as int]@);
        let mut k: usize = 0;
        while k < tools.len()
            invariant
                i < skill_names@.len(),
                k <= tools@.len(),
                names == skill_names@.map_values(|s: String| s@),
                tools@.len() == tools_for_skill(names[i as int]).len(),
                forall|m: int| 0 <= m < tools@.len() ==> (#[trigger] tools@[m])@ == tools_for_skill(names[i as int])[m],
                out.question <==> (exists|j: int| 0 <= j < i && names[j] == task_plan_skill()) || (
                k > 0 && names[i as int] == task_plan_skill()),
                out.ssh_pty <==> (exists|j: int| 0 <= j < i && names[j] == ssh_pty_skill()) || (k > 0
                    && names[i as int] == ssh_pty_skill()),
            decreases tools.len() - k,
        {
            let q = ToolNames { question: true, ssh_pty: false };
            if q.contains(tools[k]) {
                out.question = true;
            } else {
                out.ssh_pty = true;
            }
            k += 1;
        }
        i += 1;
    }
    proof {
        assert forall|t: Seq<char>| out@.contains(t) <==> unlocked_by_names(names).contains(t) by {
            if out@.contains(t) {
                if out.question && t == question_tool() {
                    let j = choose|j: int| 0 <= j < i && names[j] == task_plan_skill();
                    assert(tools_for_skill(names[j])[0] == t);
                } else {
                    let j = choose|j: int| 0 <= j < i && names[j] == ssh_pty_skill();
                    assert(tools_for_skill(names[j])[0] == t);
                }
            }
            if unlocked_by_names(names).contains(t) {
                let (j, k) = choose|j: int, k: int|
                    0 <= j < names.len() && 0 <= k < tools_for_skill(names[j]).len()
                        && #[trigger] tools_for_skill(names[j])[k] == t;
                if names[j] == task_plan_skill() {
                    assert(t == question_tool());
                } else {
                    assert(names[j] == ssh_pty_skill());
                    assert(t == ssh_pty_tool());
                }
            }
        }
        assert(out@ =~= unlocked_by_names(names));
    }
    out
}

// ---------------------------------------------------------------------------
// Activation from a skill prompt body
// ---------------------------------------------------------------------------

pub open spec fn source_line_prefix() -> Seq<char> {
    seq!['>', ' ', 'S', 'o', 'u', 'r', 'c', 'e', ':', ' ']
}

pub open spec fn skills_segment() -> Seq<char> {
    seq!['s', 'k', 'i', 'l', 'l', 's']
}

pub open spec fn md_suffix() -> Seq<char> {
    seq!['.', 'm', 'd']
}

/// A file name without its `.md` suffix.
pub open spec fn stem_of(name: Seq<char>) -> Seq<char> {
    if ends_with(name, md_suffix()) {
        name.subrange(0, name.len() - 3)
    } else {
        name
    }
}

/// The stem of the first piece, when it is non-empty.
pub open spec fn first_stem(g: Seq<Seq<char>>) -> Option<Seq<char>> {
    if g.len() == 0 || stem_of(g[0]).len() == 0 {
        None
    } else {
        Some(stem_of(g[0]))
    }
}

/// The skill name after the first `skills` path segment.
pub open spec fn name_after_skills(g: Seq<Seq<char>>) -> Option<Seq<char>>
    decreases g.len(),
{
    if g.len() == 0 {
        None
    } else if g[0] == skills_segment() {
        first_stem(g.drop_first())
    } else {
        name_after_skills(g.drop_first())
    }
}

/// The skill a `> Source: <path>` line names: the directory
/// (`.../skills/<name>/SKILL.md`) or file stem (`.../skills/<name>.md`)
/// right after the first `skills` segment of the trimmed path.
pub open spec fn skill_name_of_line(line: Seq<char>) -> Option<Seq<char>> {
    if !starts_with(line, source_line_prefix()) {
        None
    } else {
        let path = trim(line.subrange(10, line.len() as int));
        name_after_skills(pieces_from(path, 0, '/'))
    }
}

/// Some line of the body is a resolvable `> Source:` line.
pub open spec fn saw_source(b: Seq<char>) -> bool {
    exists|k: int| 0 <= k < lines(b).len() && #[trigger] skill_name_of_line(lines(b)[k]) is Some
}

/// Some `> Source:` line of the body resolves to `name`.
pub open spec fn source_names(b: Seq<char>, name: Seq<char>) -> bool {
    exists|k: int| 0 <= k < lines(b).len() && #[trigger] skill_name_of_line(lines(b)[k]) == Some(name)
}

/// The first 500 characters of the body.
pub open spec fn legacy_window(b: Seq<char>) -> Seq<char> {
    if b.len() <= 500 {
        b
    } else {
        b.subrange(0, 500)
    }
}

/// `task-plan` is active in the body.
pub open spec fn task_plan_in(b: Seq<char>) -> bool {
    if saw_source(b) {
        source_names(b, task_plan_skill())
    } else {
        contains_seq(legacy_window(b), task_plan_skill())
    }
}

/// `ssh-pty` is active in the body.
pub open spec fn ssh_pty_in(b: Seq<char>) -> bool {
    if saw_source(b) {
        source_names(b, ssh_pty_skill())
    } else {
        contains_seq(legacy_window(b), ssh_pty_tool()) || contains_seq(
            legacy_window(b),
            ssh_pty_skill(),
        )
    }
}

/// The active builtin skill names of an optional body.
pub open spec fn active_names(body: Option<Seq<char>>) -> Set<Seq<char>> {
    match body {
        None => Set::empty(),
        Some(b) => Set::new(
            |n: Seq<char>|
                (task_plan_in(b) && n == task_plan_skill()) || (ssh_pty_in(b) && n
                    == ssh_pty_skill()),
        ),
    }
}

/// The latent tools unlocked by an optional body.
pub open spec fn unlocked_tools_of(body: Option<Seq<char>>) -> Set<Seq<char>> {
    Set::new(
        |t: Seq<char>|
            (active_names(body).contains(task_plan_skill()) && t == question_tool()) || (
            active_names(body).contains(ssh_pty_skill()) && t == ssh_pty_tool()),
    )
}

pub open spec fn opt_view(body: Option<&str>) -> Option<Seq<char>> {
    match body {
        None => None,
        Some(b) => Some(b@),
    }
}

proof fn lemma_first_stem_cons(x: Seq<char>, rest: Seq<Seq<char>>)
    ensures
        first_stem(seq![x] + rest) == (if stem_of(x).len() == 0 {
            None
        } else {
            Some(stem_of(x))
        }),
{
}

proof fn lemma_name_after_cons(x: Seq<char>, rest: Seq<Seq<char>>)
    ensures
        name_after_skills(seq![x] + rest) == (if x == skills_segment() {
            first_stem(rest)
        } else {
            name_after_skills(rest)
        }),
{
    assert((seq![x] + rest).drop_first() =~= rest);
}

/// The stem range of `p[a..b]` (dropping a `.md` suffix).
fn stem_range(p: &Vec<char>, a: usize, b: usize) -> (r: usize)
    requires
        a <= b <= p@.len(),
    ensures
        a <= r <= b,
        p@.subrange(a as int, r as int) == stem_of(p@.subrange(a as int, b as int)),
{
    let md = ['.', 'm', 'd'];
    assert(md@ =~= md_suffix());
    let ghost piece = p@.subrange(a as int, b as int);
    if b - a >= 3 && range_eq(p, b - 3, b, &md) {
        assert(piece.subrange(piece.len() - 3, piece.len() as int) =~= p@.subrange(b - 3, b as int));
        assert(p@.subrange(a as int, b - 3) =~= piece.subrange(0, piece.len() - 3));
        b - 3
    } else {
        if b - a >= 3 {
            assert(piece.subrange(piece.len() - 3, piece.len() as int) =~= p@.subrange(b - 3, b as int));
        }
        b
    }
}

/// Resolve the skill name of the `> Source:` line `v[ls..le]`, as the
/// characters of the name.
fn skill_name_from_source_line(v: &Vec<char>, ls: usize, le: usize) -> (r: Option<Vec<char>>)
    requires
        ls <= le <= v@.len(),
    ensures
        match skill_name_of_line(v@.subrange(ls as int, le as int)) {
            None => r is None,
            Some(n) => r matches Some(w) && w@ == n,
        },
{
    let prefix = ['>', ' ', 'S', 'o', 'u', 'r', 'c', 'e', ':', ' '];
    assert(prefix@ =~= source_line_prefix());
    let ghost line = v@.subrange(ls as int, le as int);
    if !starts_with_in_range(v, ls, le, &prefix) {
        return None;
    }
    let (a, b) = trim_range(v, ls + 10, le);
    assert(line.subrange(10, line.len() as int) =~= v@.subrange(ls + 10, le as int));
    let mut p: Vec<char> = Vec::new();
    crate::text::extend_from_range(&mut p, v, a, b);
    assert(p@ =~= v@.subrange(a as int, b as int));
    let ghost g = pieces_from(p@, 0, '/');
    assert(skill_name_of_line(line) == name_after_skills(g));
    let skills = ['s', 'k', 'i', 'l', 'l', 's'];
    assert(skills@ =~= skills_segment());
    let mut found = false;
    let mut i: usize = 0;
    let n = p.len();
    while i < n
        invariant
            i <= n == p@.len(),
            skills@ == skills_segment(),
            skill_name_of_line(v@.subrange(ls as int, le as int)) == name_after_skills(g),
            name_after_skills(g) == (if found {
                first_stem(pieces_from(p@, i as int, '/'))
            } else {
                name_after_skills(pieces_from(p@, i as int, '/'))
            }),
        decreases n - i,
    {
        let j = find_char(&p, i, n, '/');
        let ghost rest = if j < n {
            pieces_from(p@, j + 1, '/')
        } else {
            Seq::<Seq<char>>::empty()
        };
        assert(pieces_from(p@, i as int, '/') == if j == i {
            rest
        } else {
            seq![p@.subrange(i as int, j as int)] + rest
        });
        if j > i {
            proof {
                lemma_first_stem_cons(p@.subrange(i as int, j as int), rest);
                lemma_name_after_cons(p@.subrange(i as int, j as int), rest);
            }
            if found {
                let e = stem_range(&p, i, j);
                if e == i {
                    return None;
                }
                let mut w: Vec<char> = Vec::new();
                crate::text::extend_from_range(&mut w, &p, i, e);
                assert(w@ =~= p@.subrange(i as int, e as int));
                return Some(w);
            }
            if range_eq(&p, i, j, &skills) {
                found = true;
            }
        }
        if j >= n {
            i = n;
        } else {
            i = j + 1;
        }
    }
    assert(pieces_from(p@, n as int, '/') =~= Seq::<Seq<char>>::empty());
    None
}

/// Resolve the set of active builtin skill names from a skill prompt body.
/// Every `> Source: <path>` line resolves exactly (a look-alike
/// `my-task-plan` never matches); a body with no such line scans only its
/// first 500 characters for the skill identifiers.
pub fn active_skill_names(body: Option<&str>) -> (r: SkillNames)
    ensures
        r@ == active_names(opt_view(body)),
{
    let b = match body {
        None => {
            let r = SkillNames { task_plan: false, ssh_pty: false };
            assert(r@ =~= active_names(opt_view(body)));
            return r;
        },
        Some(b) => b,
    };
    let v = chars_of(b);
    let ranges = line_ranges(&v);
    assert(ranges@.len() == lines(v@).len());
    assert(forall|m: int| 0 <= m < ranges@.len() ==> (#[trigger] ranges@[m]).0 <= ranges@[m].1 <= v@.len());
    let tp = ['t', 'a', 's', 'k', '-', 'p', 'l', 'a', 'n'];
    let sp = ['s', 's', 'h', '-', 'p', 't', 'y'];
    let st = ['s', 's', 'h', '_', 'p', 't', 'y'];
    assert(tp@ =~= task_plan_skill());
    assert(sp@ =~= ssh_pty_skill());
    assert(st@ =~= ssh_pty_tool());
    assert(forall|m: int|
        0 <= m < ranges@.len() ==> {
            &&& ranges@[m].0 <= ranges@[m].1 <= v@.len()
            &&& v@.subrange(ranges@[m].0 as int, ranges@[m].1 as int) == #[trigger] lines(v@)[m]
        });
    let mut saw = false;
    let mut task_plan = false;
    let mut ssh_pty = false;
    let mut k: usize = 0;
    while k < ranges.len()
        invariant
            v@ == b@,
            tp@ == task_plan_skill(),
            sp@ == ssh_pty_skill(),
            k <= ranges@.len() == lines(v@).len(),
            forall|m: int|
                0 <= m < ranges@.len() ==> {
                    &&& ranges@[m].0 <= ranges@[m].1 <= v@.len()
                    &&& v@.subrange(ranges@[m].0 as int, ranges@[m].1 as int) == #[trigger] lines(
                        v@,
                    )[m]
                },
            saw <==> exists|m: int| 0 <= m < k && #[trigger] skill_name_of_line(lines(v@)[m]) is Some,
            task_plan <==> exists|m: int|
                0 <= m < k && #[trigger] skill_name_of_line(lines(v@)[m]) == Some(task_plan_skill()),
            ssh_pty <==> exists|m: int|
                0 <= m < k && #[trigger] skill_name_of_line(lines(v@)[m]) == Some(ssh_pty_skill()),
        decreases ranges.len() - k,
    {
        let (ls, le) = ranges[k];
        assert(v@.subrange(ls as int, le as int) == lines(v@)[k as int]);
        if let Some(w) = skill_name_from_source_line(&v, ls, le) {
            saw = true;
            assert(w@.subrange(0, w@.len() as int) =~= w@);
            if range_eq(&w, 0, w.len(), &tp) {
                task_plan = true;
            }
            if range_eq(&w, 0, w.len(), &sp) {
                ssh_pty = true;
            }
        }
        k += 1;
    }
    if saw {
        let r = SkillNames { task_plan, ssh_pty };
        assert(r@ =~= active_names(opt_view(body)));
        return r;
    }
    let pe = if v.len() <= 500 { v.len() } else { 500 };
    assert(v@.subrange(0, pe as int) =~= legacy_window(v@));
    let ssh = contains_in_range(&v, 0, pe, &st) || contains_in_range(&v, 0, pe, &sp);
    let plan = contains_in_range(&v, 0, pe, &tp);
    let r = SkillNames { task_plan: plan, ssh_pty: ssh };
    assert(r@ =~= active_names(opt_view(body)));
    r
}

/// The latent tool names unlocked by a skill prompt body: the active skill
/// names projected through the skill-to-tool table.
pub fn unlocked_from_body(body: Option<&str>) -> (r: ToolNames)
    ensures
        r@ == unlocked_tools_of(opt_view(body)),
{
    let names = active_skill_names(body);
    let r = ToolNames { question: names.task_plan, ssh_pty: names.ssh_pty };
    proof {
        assert(names@.contains(task_plan_skill()) == names.task_plan);
        assert(names@.contains(ssh_pty_skill()) == names.ssh_pty);
    }
    assert(r@ =~= unlocked_tools_of(opt_view(body)));
    r
}

/// True when the task-plan skill is active in the body.
pub fn task_plan_active(body: Option<&str>) -> (b: bool)
    ensures
        b == active_names(opt_view(body)).contains(task_plan_skill()),
{
    let names = active_skill_names(body);
    assert(names@.contains(task_plan_skill()) == names.task_plan);
    names.task_plan
}

/// Execution-time re-check: a latent tool may only execute while its owning
/// skill is active; non-latent tools are always allowed.
pub fn latent_execution_allowed(name: &str, skill_body: Option<&str>) -> (b: bool)
    ensures
        b == (!is_latent(name@) || unlocked_tools_of(opt_view(skill_body)).contains(name@)),
{
    !is_latent_tool(name) || unlocked_from_body(skill_body).contains(name)
}

/// Visibility of a registry tool under latent gating: the plan agent always
/// sees `question`; otherwise the agent's allowlist must admit the tool and
/// a latent tool must be unlocked.
pub fn is_visible(name: &str, plan_agent: bool, allowlisted: bool, unlocked: &ToolNames) -> (b:
    bool)
    ensures
        b == ((name@ == question_tool() && plan_agent) || (allowlisted && (!is_latent(name@)
            || unlocked@.contains(name@)))),
{
    let v = chars_of(name);
    let q = ['q', 'u', 'e', 's', 't', 'i', 'o', 'n'];
    assert(q@ =~= question_tool());
    assert(v@.subrange(0, v@.len() as int) =~= v@);
    if plan_agent && range_eq(&v, 0, v.len(), &q) {
        return true;
    }
    allowlisted && (!is_latent_tool(name) || unlocked.contains(name))
}


proof fn lemma_same_lines_same_sources(b1: Seq<char>, b2: Seq<char>)
    requires
        lines(b1).to_set() == lines(b2).to_set(),
    ensures
        saw_source(b1) == saw_source(b2),
        forall|n: Seq<char>| source_names(b1, n) == source_names(b2, n),
{
    assert forall|n: Seq<char>| source_names(b1, n) implies source_names(b2, n) by {
        let k = choose|k: int| 0 <= k < lines(b1).len() && #[trigger] skill_name_of_line(lines(b1)[k]) == Some(n);
        assert(lines(b1).to_set().contains(lines(b1)[k]));
        let j = choose|j: int| 0 <= j < lines(b2).len() && lines(b2)[j] == lines(b1)[k];
        assert(skill_name_of_line(lines(b2)[j]) == Some(n));
    }
    assert forall|n: Seq<char>| source_names(b2, n) implies source_names(b1, n) by {
        let k = choose|k: int| 0 <= k < lines(b2).len() && #[trigger] skill_name_of_line(lines(b2)[k]) == Some(n);
        assert(lines(b2).to_set().contains(lines(b2)[k]));
        let j = choose|j: int| 0 <= j < lines(b1).len() && lines(b1)[j] == lines(b2)[k];
        assert(skill_name_of_line(lines(b1)[j]) == Some(n));
    }
    if saw_source(b1) {
        let k = choose|k: int| 0 <= k < lines(b1).len() && #[trigger] skill_name_of_line(lines(b1)[k]) is Some;
        let n = skill_name_of_line(lines(b1)[k])->0;
        assert(source_names(b1, n));
        assert(source_names(b2, n));
    }
    if saw_source(b2) {
        let k = choose|k: int| 0 <= k < lines(b2).len() && #[trigger] skill_name_of_line(lines(b2)[k]) is Some;
        let n = skill_name_of_line(lines(b2)[k])->0;
        assert(source_names(b2, n));
        assert(source_names(b1, n));
    }
}

/// Law: the active skills of a body depend only on which lines it holds,
/// not on their order, once one of them is a resolvable `> Source:` line:
/// reordering the sections of a compound skill body (or repeating one)
/// activates the same skills, however long the text before them. (A body
/// without such a line is read through its first 500 characters, where
/// order does matter.)
pub proof fn active_names_ignore_section_order(b1: Seq<char>, b2: Seq<char>)
    requires
        lines(b1).to_set() == lines(b2).to_set(),
    ensures
        saw_source(b1) ==> active_names(Some(b1)) == active_names(Some(b2)),
        saw_source(b1) == saw_source(b2),
{
    lemma_same_lines_same_sources(b1, b2);
    if saw_source(b1) {
        assert(task_plan_in(b1) == task_plan_in(b2));
        assert(ssh_pty_in(b1) == ssh_pty_in(b2));
        assert(active_names(Some(b1)) =~= active_names(Some(b2)));
    }
}

/// Law: a body made of two sections that each carry a `> Source:` line
/// activates exactly the skills the two activate on their own.
pub proof fn compound_body_unites_its_sections(b: Seq<char>, x: Seq<char>, y: Seq<char>)
    requires
        lines(b).to_set() == lines(x).to_set() + lines(y).to_set(),
        saw_source(x),
        saw_source(y),
    ensures
        active_names(Some(b)) == active_names(Some(x)) + active_names(Some(y)),
{
    assert forall|n: Seq<char>| source_names(b, n) == (source_names(x, n) || source_names(y, n)) by {
        if source_names(b, n) {
            let k = choose|k: int| 0 <= k < lines(b).len() && #[trigger] skill_name_of_line(lines(b)[k]) == Some(n);
            assert(lines(b).to_set().contains(lines(b)[k]));
            if lines(x).to_set().contains(lines(b)[k]) {
                let j = choose|j: int| 0 <= j < lines(x).len() && lines(x)[j] == lines(b)[k];
                assert(skill_name_of_line(lines(x)[j]) == Some(n));
            } else {
                let j = choose|j: int| 0 <= j < lines(y).len() && lines(y)[j] == lines(b)[k];
                assert(skill_name_of_line(lines(y)[j]) == Some(n));
            }
        }
        if source_names(x, n) {
            let k = choose|k: int| 0 <= k < lines(x).len() && #[trigger] skill_name_of_line(lines(x)[k]) == Some(n);
            assert(lines(x).to_set().contains(lines(x)[k]));
            assert(lines(b).to_set().contains(lines(x)[k]));
            let j = choose|j: int| 0 <= j < lines(b).len() && lines(b)[j] == lines(x)[k];
            assert(skill_name_of_line(lines(b)[j]) == Some(n));
        }
        if source_names(y, n) {
            let k = choose|k: int| 0 <= k < lines(y).len() && #[trigger] skill_name_of_line(lines(y)[k]) == Some(n);
            assert(lines(y).to_set().contains(lines(y)[k]));
            assert(lines(b).to_set().contains(lines(y)[k]));
            let j = choose|j: int| 0 <= j < lines(b).len() && lines(b)[j] == lines(y)[k];
            assert(skill_name_of_line(lines(b)[j]) == Some(n));
        }
    }
    let kx = choose|k: int| 0 <= k < lines(x).len() && #[trigger] skill_name_of_line(lines(x)[k]) is Some;
    let nx = skill_name_of_line(lines(x)[kx])->0;
    assert(source_names(x, nx));
    assert(source_names(b, nx));
    assert(saw_source(b));
    assert(active_names(Some(b)) =~= active_names(Some(x)) + active_names(Some(y)));
}


// ---------------------------------------------------------------------------
// Lines of joined texts
// ---------------------------------------------------------------------------

proof fn lemma_next_newline_shift(p: Seq<char>, v: Seq<char>, i: int)
    requires
        0 <= i <= v.len(),
    ensures
        next_newline(p + v, p.len() + i) == p.len() + next_newline(v, i),
    decreases v.len() - i,
{
    if i < v.len() {
        assert((p + v)[p.len() + i] == v[i]);
        if v[i] != '\n' {
            lemma_next_newline_shift(p, v, i + 1);
        }
    }
}

proof fn lemma_lines_shift(p: Seq<char>, v: Seq<char>, i: int)
    requires
        0 <= i <= v.len(),
    ensures
        lines_from(p + v, p.len() + i) == lines_from(v, i),
    decreases v.len() - i,
{
    if i < v.len() {
        lemma_next_newline_shift(p, v, i);
        lemma_next_newline(v, i);
        let j = next_newline(v, i);
        if j < v.len() {
            lemma_lines_shift(p, v, j + 1);
            assert((p + v).subrange(p.len() + i, p.len() + j) =~= v.subrange(i, j));
        } else {
            assert((p + v).subrange(p.len() + i, (p + v).len() as int) =~= v.subrange(i, v.len() as int));
        }
    }
}

proof fn lemma_lines_from_concat(u: Seq<char>, v: Seq<char>, i: int)
    requires
        u.len() > 0,
        u.last() == '\n',
        0 <= i <= u.len(),
    ensures
        lines_from(u + v, i) == lines_from(u, i) + lines_from(v, 0),
    decreases u.len() - i,
{
    if i == u.len() {
        lemma_lines_shift(u, v, 0);
        assert(lines_from(u, i) =~= Seq::<Seq<char>>::empty());
        assert(lines_from(u, i) + lines_from(v, 0) =~= lines_from(v, 0));
    } else {
        lemma_next_newline(u, i);
        lemma_next_newline(u + v, i);
        let j = next_newline(u, i);
        assert(u[u.len() - 1] == '\n');
        if j == u.len() {
            assert(false);
        }
        assert forall|k: int| i <= k < j implies (u + v)[k] != '\n' by {
            assert((u + v)[k] == u[k]);
        }
        assert((u + v)[j] == '\n');
        let jj = next_newline(u + v, i);
        if jj < j {
            assert((u + v)[jj] == u[jj]);
        }
        assert(jj == j);
        lemma_lines_from_concat(u, v, j + 1);
        assert((u + v).subrange(i, j) =~= u.subrange(i, j));
        assert(lines_from(u + v, i) =~= seq![strip_cr(u.subrange(i, j))] + lines_from(u + v, j + 1));
        assert(lines_from(u, i) =~= seq![strip_cr(u.subrange(i, j))] + lines_from(u, j + 1));
    }
}

/// A text that ends in a line feed (or is empty) splits off cleanly: the
/// lines of `u + v` are those of `u`, then those of `v`.
proof fn lemma_lines_concat(u: Seq<char>, v: Seq<char>)
    requires
        u.len() == 0 || u.last() == '\n',
    ensures
        lines(u + v) == lines(u) + lines(v),
{
    if u.len() == 0 {
        assert(u + v =~= v);
        assert(lines(u) =~= Seq::<Seq<char>>::empty());
        assert(lines(u) + lines(v) =~= lines(v));
    } else {
        lemma_lines_from_concat(u, v, 0);
    }
}

/// Appending a line feed to a text that does not end in one only drops a
/// `'\r'` from its last line.
proof fn lemma_lines_from_newline(a: Seq<char>, i: int)
    requires
        a.len() > 0,
        a.last() != '\n',
        0 <= i < a.len(),
    ensures
        ({
            let la = lines_from(a, i);
            let lb = lines_from(a + seq!['\n'], i);
            &&& la.len() > 0
            &&& lb.len() == la.len()
            &&& forall|k: int| 0 <= k < la.len() - 1 ==> #[trigger] lb[k] == la[k]
            &&& lb[la.len() - 1] == strip_cr(la[la.len() - 1])
        }),
    decreases a.len() - i,
{
    let b = a + seq!['\n'];
    lemma_next_newline(a, i);
    lemma_next_newline(b, i);
    let j = next_newline(a, i);
    let jj = next_newline(b, i);
    assert forall|k: int| i <= k < a.len() implies b[k] == a[k] by {}
    assert(b[a.len() as int] == '\n');
    if jj < j {
        assert(b[jj] == a[jj]);
    }
    if j < a.len() {
        assert(b[j] == '\n');
        assert(jj == j);
        if j == a.len() - 1 {
            assert(a[j] == a.last());
            assert(false);
        }
        lemma_lines_from_newline(a, j + 1);
        assert(b.subrange(i, j) =~= a.subrange(i, j));
        let la = lines_from(a, i);
        let lb = lines_from(b, i);
        let ra = lines_from(a, j + 1);
        let rb = lines_from(b, j + 1);
        assert(la =~= seq![strip_cr(a.subrange(i, j))] + ra);
        assert(lb =~= seq![strip_cr(a.subrange(i, j))] + rb);
        assert forall|k: int| 0 <= k < la.len() - 1 implies #[trigger] lb[k] == la[k] by {
            if k > 0 {
                assert(la[k] == ra[k - 1] && lb[k] == rb[k - 1]);
            }
        }
        assert(la[la.len() - 1] == ra[ra.len() - 1]);
        assert(lb[la.len() - 1] == rb[ra.len() - 1]);
    } else {
        assert(jj == a.len());
        assert(lines_from(b, a.len() + 1int) =~= Seq::<Seq<char>>::empty());
        assert(b.subrange(i, a.len() as int) =~= a.subrange(i, a.len() as int));
        assert(lines_from(a, i) =~= seq![a.subrange(i, a.len() as int)]);
        assert(lines_from(b, i) =~= seq![strip_cr(a.subrange(i, a.len() as int))]);
    }
}

proof fn lemma_trim_drop_ws(x: Seq<char>)
    requires
        x.len() > 0,
        is_unicode_ws(x.last()),
    ensures
        trim(x.drop_last()) == trim(x),
{
    let y = x.drop_last();
    lemma_trim_start_index(x);
    lemma_trim_start_index(y);
    lemma_trim_end_index(x);
    lemma_trim_end_index(y);
    let b = trim_end_index(x);
    assert(b == trim_end_index(y));
    if b > 0 {
        let a1 = trim_start_index(x);
        let a2 = trim_start_index(y);
        assert(y[b - 1] == x[b - 1]);
        if a1 > b - 1 {
            assert(is_unicode_ws(x[b - 1]));
        }
        if a2 > b - 1 {
            assert(is_unicode_ws(y[b - 1]));
        }
        if a1 < a2 {
            assert(y[a1] == x[a1]);
        }
        if a2 < a1 {
            assert(y[a2] == x[a2]);
        }
        assert(a1 == a2);
        assert(x.subrange(a1, b) =~= y.subrange(a2, b));
    }
}

/// Dropping the `'\r'` before a line feed never changes which skill a line
/// names.
proof fn lemma_strip_cr_same_skill(l: Seq<char>)
    ensures
        skill_name_of_line(strip_cr(l)) == skill_name_of_line(l),
{
    if l.len() > 0 && l.last() == '\r' {
        let l2 = l.drop_last();
        let pre = source_line_prefix();
        if starts_with(l, pre) {
            assert(l.len() >= 11) by {
                if l.len() == 10 {
                    assert(l[9] == pre[9]);
                }
            }
            assert(l2.subrange(0, 10) =~= l.subrange(0, 10));
            let path = l.subrange(10, l.len() as int);
            assert(l2.subrange(10, l2.len() as int) =~= path.drop_last());
            assert(is_unicode_ws('\r'));
            lemma_trim_drop_ws(path);
        } else if starts_with(l2, pre) {
            assert(l.subrange(0, 10) =~= l2.subrange(0, 10));
        }
    }
}

/// Some line of `ls` names skill `n`.
pub open spec fn line_names(ls: Seq<Seq<char>>, n: Seq<char>) -> bool {
    exists|k: int| 0 <= k < ls.len() && #[trigger] skill_name_of_line(ls[k]) == Some(n)
}

proof fn lemma_line_names_concat(x: Seq<Seq<char>>, y: Seq<Seq<char>>, n: Seq<char>)
    ensures
        line_names(x + y, n) == (line_names(x, n) || line_names(y, n)),
{
    let z = x + y;
    if line_names(z, n) {
        let k = choose|k: int| 0 <= k < z.len() && #[trigger] skill_name_of_line(z[k]) == Some(n);
        if k < x.len() {
            assert(z[k] == x[k]);
        } else {
            assert(z[k] == y[k - x.len()]);
        }
    }
    if line_names(x, n) {
        let k = choose|k: int| 0 <= k < x.len() && #[trigger] skill_name_of_line(x[k]) == Some(n);
        assert(z[k] == x[k]);
    }
    if line_names(y, n) {
        let k = choose|k: int| 0 <= k < y.len() && #[trigger] skill_name_of_line(y[k]) == Some(n);
        assert(z[k + x.len()] == y[k]);
    }
}

/// The skills a section names are the same once a blank line follows it.
proof fn lemma_section_names(a: Seq<char>, n: Seq<char>)
    ensures
        line_names(lines(a + seq!['\n', '\n']), n) == line_names(lines(a), n),
{
    let nl = seq!['\n'];
    let a1 = a + nl;
    assert(a + seq!['\n', '\n'] =~= a1 + nl);
    lemma_lines_concat(a1, nl);
    lemma_next_newline(nl, 0);
    assert(nl.subrange(0, 0) =~= Seq::<char>::empty());
    assert(lines_from(nl, 1) =~= Seq::<Seq<char>>::empty());
    assert(lines(nl) =~= seq![strip_cr(Seq::<char>::empty())]);
    assert(strip_cr(Seq::<char>::empty()) =~= Seq::<char>::empty());
    assert(skill_name_of_line(Seq::<char>::empty()) is None);
    lemma_line_names_concat(lines(a1), lines(nl), n);
    assert(!line_names(lines(nl), n));
    // lines(a1) against lines(a)
    if a.len() == 0 {
        assert(a1 =~= nl);
        assert(lines(a) =~= Seq::<Seq<char>>::empty());
    } else if a.last() == '\n' {
        lemma_lines_concat(a, nl);
        lemma_line_names_concat(lines(a), lines(nl), n);
    } else {
        lemma_lines_from_newline(a, 0);
        let la = lines(a);
        let lb = lines(a1);
        if line_names(la, n) {
            let k = choose|k: int| 0 <= k < la.len() && #[trigger] skill_name_of_line(la[k]) == Some(n);
            if k == la.len() - 1 {
                lemma_strip_cr_same_skill(la[k]);
            }
            assert(skill_name_of_line(lb[k]) == Some(n));
        }
        if line_names(lb, n) {
            let k = choose|k: int| 0 <= k < lb.len() && #[trigger] skill_name_of_line(lb[k]) == Some(n);
            if k == la.len() - 1 {
                lemma_strip_cr_same_skill(la[k]);
            }
            assert(skill_name_of_line(la[k]) == Some(n));
        }
    }
}

/// Law: leading text without a `> Source:` line, and the order of two
/// sourced sections joined by a blank line, change nothing: the body
/// activates exactly the skills the two sections activate on their own,
/// however long the leading text is.
pub proof fn leading_text_and_section_order_do_not_matter(f: Seq<char>, a: Seq<char>, b: Seq<char>)
    requires
        f.len() == 0 || f.last() == '\n',
        forall|k: int| 0 <= k < lines(f).len() ==> #[trigger] skill_name_of_line(lines(f)[k]) is None,
        saw_source(a),
        saw_source(b),
    ensures
        active_names(Some(f + a + "\n\n"@ + b)) == active_names(Some(a)) + active_names(Some(b)),
        active_names(Some(f + b + "\n\n"@ + a)) == active_names(Some(a)) + active_names(Some(b)),
{
    lemma_joined_names(f, a, b);
    lemma_joined_names(f, b, a);
}

proof fn lemma_joined_names(f: Seq<char>, a: Seq<char>, b: Seq<char>)
    requires
        f.len() == 0 || f.last() == '\n',
        forall|k: int| 0 <= k < lines(f).len() ==> #[trigger] skill_name_of_line(lines(f)[k]) is None,
        saw_source(a),
        saw_source(b),
    ensures
        active_names(Some(f + a + "\n\n"@ + b)) == active_names(Some(a)) + active_names(Some(b)),
{
    reveal_strlit("\n\n");
    let sep = seq!['\n', '\n'];
    assert("\n\n"@ =~= sep);
    let a2 = a + sep;
    let body = f + a + "\n\n"@ + b;
    assert(body =~= f + (a2 + b));
    lemma_lines_concat(f, a2 + b);
    assert(a2.last() == '\n');
    lemma_lines_concat(a2, b);
    assert forall|n: Seq<char>| source_names(body, n) == (source_names(a, n) || source_names(b, n)) by {
        lemma_line_names_concat(lines(f), lines(a2 + b), n);
        lemma_line_names_concat(lines(a2), lines(b), n);
        lemma_section_names(a, n);
        if line_names(lines(f), n) {
            let k = choose|k: int| 0 <= k < lines(f).len() && #[trigger] skill_name_of_line(lines(f)[k]) == Some(n);
            assert(skill_name_of_line(lines(f)[k]) is None);
        }
        assert(source_names(body, n) == line_names(lines(body), n));
        assert(source_names(a, n) == line_names(lines(a), n));
        assert(source_names(b, n) == line_names(lines(b), n));
    }
    let ka = choose|k: int| 0 <= k < lines(a).len() && #[trigger] skill_name_of_line(lines(a)[k]) is Some;
    let na = skill_name_of_line(lines(a)[ka])->0;
    assert(source_names(a, na));
    assert(source_names(body, na));
    assert(saw_source(body));
    assert(active_names(Some(body)) =~= active_names(Some(a)) + active_names(Some(b)));
}

} // verus!
