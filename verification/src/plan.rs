//! The `plan_exit` tool: the plan file's name and the answer after
//! writing it. Writing the file stays with the caller.

use vstd::prelude::*;
use crate::research::{dash_end, dash_start, lemma_dash_end, lemma_dash_start, trim_dash_range, trim_dashes};
use crate::text::{push_str, string_from_range};
use crate::web::{alphanumeric, is_alphanumeric};

verus! {

/// Every character that is not alphanumeric, `-` or `_` replaced by `-`.
pub open spec fn dashed(s: Seq<char>) -> Seq<char> {
    s.map_values(|c: char| if alphanumeric(c) || c == '-' || c == '_' { c } else { '-' })
}

/// A file-name-safe plan name: unsafe characters dashed, leading and
/// trailing dashes removed.
pub open spec fn sanitized(s: Seq<char>) -> Seq<char> {
    trim_dashes(dashed(s))
}

pub fn sanitize(s: &str) -> (r: String)
    ensures
        r@ == sanitized(s@),
{
    let mut v: Vec<char> = Vec::new();
    for c in it: s.chars()
        invariant
            it.seq() == s@,
            v@ == dashed(it.seq().take(it.index() as int)),
    {
        let keep = is_alphanumeric(c) || c == '-' || c == '_';
        v.push(if keep { c } else { '-' });
        assert(dashed(it.seq().take(it.index() + 1)) =~= dashed(it.seq().take(it.index() as int)).push(
            if keep { c } else { '-' },
        ));
    }
    assert(s@.take(s@.len() as int) =~= s@);
    let (a, b) = trim_dash_range(&v);
    string_from_range(&v, a, b)
}

/// The plan file's name: the sanitized name (default `plan`) with `.md`.
pub fn plan_file_name(name: Option<&str>) -> (r: String)
    ensures
        r@ == sanitized(match name {
            Some(n) => n@,
            None => "plan"@,
        }) + ".md"@,
{
    let n = match name {
        Some(n) => n,
        None => "plan",
    };
    let mut s = sanitize(n);
    push_str(&mut s, ".md");
    s
}

/// The `plan_exit` tool's identity and answers.
pub struct PlanExitTool {}

impl PlanExitTool {
    pub fn name(&self) -> (r: &'static str)
        ensures
            r@ == "plan_exit"@,
    {
        "plan_exit"
    }

    pub fn description(&self) -> (r: &'static str)
        ensures
            r@ == "Exit plan mode and switch to act (execution) mode. Writes the plan markdown to .opencode/plans/ and signals the runner to switch agents. Call this once the plan is complete."@,
    {
        "Exit plan mode and switch to act (execution) mode. Writes the plan markdown to .opencode/plans/ and signals the runner to switch agents. Call this once the plan is complete."
    }

    /// The answer after the plan was written to `path`.
    pub fn written(path: &str) -> (r: String)
        ensures
            r@ == "plan written to "@ + path@ + "; switching to act mode"@,
    {
        let mut m = String::new();
        push_str(&mut m, "plan written to ");
        push_str(&mut m, path);
        push_str(&mut m, "; switching to act mode");
        m
    }
}


/// A character a plan name keeps: alphanumeric, `-` or `_`.
pub open spec fn plan_char(c: char) -> bool {
    alphanumeric(c) || c == '-' || c == '_'
}

/// A plan name already safe: only kept characters, no dash at either end.
pub open spec fn is_plan_name(s: Seq<char>) -> bool {
    &&& forall|i: int| 0 <= i < s.len() ==> plan_char(#[trigger] s[i])
    &&& s.len() > 0 ==> s[0] != '-' && s.last() != '-'
}

/// Law: sanitizing keeps every alphanumeric, `-` and `_` character as it
/// is: a name made only of them, with no dash at either end, is its own
/// sanitized form. Every sanitized name is such a name, so sanitizing twice
/// is sanitizing once.
pub proof fn sanitizing_keeps_safe_names(s: Seq<char>)
    ensures
        is_plan_name(s) ==> sanitized(s) == s,
        is_plan_name(sanitized(s)),
        sanitized(sanitized(s)) == sanitized(s),
{
    let d = dashed(s);
    lemma_dash_start(d);
    lemma_dash_end(d);
    let a = dash_start(d);
    let b = dash_end(d);
    assert forall|i: int| 0 <= i < d.len() implies plan_char(#[trigger] d[i]) by {}
    let t = sanitized(s);
    if a < b {
        assert(t == d.subrange(a, b));
        assert forall|i: int| 0 <= i < t.len() implies plan_char(#[trigger] t[i]) by {
            assert(t[i] == d[a + i]);
        }
        assert(t[0] == d[a]);
        assert(t.last() == d[b - 1]);
    } else {
        assert(t =~= Seq::<char>::empty());
    }
    lemma_safe_name_fixed(t);
    if is_plan_name(s) {
        lemma_safe_name_fixed(s);
    }
}

proof fn lemma_safe_name_fixed(s: Seq<char>)
    requires
        is_plan_name(s),
    ensures
        sanitized(s) == s,
{
    let d = dashed(s);
    assert(d =~= s);
    lemma_dash_start(d);
    lemma_dash_end(d);
    if s.len() > 0 {
        assert(dash_start(d) == 0);
        assert(dash_end(d) == d.len());
        assert(d.subrange(0, d.len() as int) =~= d);
    } else {
        assert(trim_dashes(d) =~= d);
    }
}

} // verus!
