//! The `glob` tool's pattern analysis: literal patterns, directory-only
//! patterns, and the root from which the walk descends. Walking the
//! file system and matching paths stay with the caller.

use vstd::prelude::*;
use crate::text::{chars_of, str_eq};

verus! {

/// Most file-system entries one walk visits.
pub const MAX_VISITED: u32 = 50000;
/// Most paths one call returns.
pub const RESULT_CAP: usize = 500;

/// Directory names the walk never descends into.
pub open spec fn pruned(name: Seq<char>) -> bool {
    name == ".git"@ || name == "node_modules"@ || name == "target"@ || name == "dist"@ || name == ".next"@
        || name == ".cache"@
}

pub fn is_pruned(name: &str) -> (b: bool)
    ensures
        b == pruned(name@),
{
    str_eq(name, ".git") || str_eq(name, "node_modules") || str_eq(name, "target") || str_eq(name, "dist")
        || str_eq(name, ".next") || str_eq(name, ".cache")
}

/// A glob metacharacter.
pub open spec fn is_glob_char(c: char) -> bool {
    c == '*' || c == '?' || c == '['
}

/// `s` holds a glob metacharacter.
pub open spec fn has_glob_char(s: Seq<char>) -> bool {
    exists|k: int| 0 <= k < s.len() && is_glob_char(#[trigger] s[k])
}

fn glob_char_in(v: &Vec<char>) -> (b: bool)
    ensures
        b == has_glob_char(v@),
{
    let mut i: usize = 0;
    while i < v.len()
        invariant
            i <= v@.len(),
            forall|k: int| 0 <= k < i ==> !is_glob_char(#[trigger] v@[k]),
        decreases v.len() - i,
    {
        let c = v[i];
        if c == '*' || c == '?' || c == '[' {
            return true;
        }
        i += 1;
    }
    false
}

/// True when the pattern holds no glob metacharacter (`*`, `?`, `[`): it
/// names one exact path.
pub fn is_literal(pattern: &str) -> (b: bool)
    ensures
        b == !has_glob_char(pattern@),
{
    let v = chars_of(pattern);
    !glob_char_in(&v)
}

/// The last component of a path, as `std::path::Path::file_name` gives it.
pub uninterp spec fn file_name_of(path: Seq<char>) -> Option<Seq<char>>;

/// Calls `Path::file_name` (lossily as text); claims only that the result
/// is a function of the path (named `file_name_of`).
#[verifier::external_body]
fn path_file_name(path: &str) -> (r: Option<String>)
    ensures
        match r {
            Some(n) => file_name_of(path@) == Some(n@),
            None => file_name_of(path@) is None,
        },
{
    std::path::Path::new(path).file_name().map(|f| f.to_string_lossy().to_string())
}

/// True when the pattern's last component is exactly `**` (such patterns
/// match directories only).
pub fn is_doublestar_terminal(pattern: &str) -> (b: bool)
    ensures
        b == (file_name_of(pattern@) == Some("**"@)),
{
    match path_file_name(pattern) {
        Some(n) => crate::text::str_eq(n.as_str(), "**"),
        None => false,
    }
}

/// The components of a path, as `std::path::Path::components` gives them.
pub uninterp spec fn components_of(path: Seq<char>) -> Seq<Seq<char>>;

/// Calls `Path::components` and takes each component's text; claims only
/// that the result is a function of the path (named `components_of`).
#[verifier::external_body]
fn path_components(path: &str) -> (r: Vec<String>)
    ensures
        r@.len() == components_of(path@).len(),
        forall|k: int| 0 <= k < r@.len() ==> (#[trigger] r@[k])@ == components_of(path@)[k],
{
    std::path::Path::new(path).components().map(|c| c.as_os_str().to_string_lossy().to_string()).collect()
}

/// The path built by pushing each component onto an empty path.
pub uninterp spec fn joined_path_of(components: Seq<Seq<char>>) -> Seq<char>;

/// Calls `PathBuf::push` for each component, starting from an empty
/// `PathBuf`; claims only that the result is a function of the components
/// (named `joined_path_of`).
#[verifier::external_body]
fn join_components(components: &Vec<String>) -> (r: String)
    ensures
        r@ == joined_path_of(components@.map_values(|c: String| c@)),
{
    let mut p = std::path::PathBuf::new();
    for c in components.iter() {
        p.push(c);
    }
    p.display().to_string()
}

/// Number of leading components without glob metacharacters.
pub open spec fn literal_prefix_len(cs: Seq<Seq<char>>) -> nat
    decreases cs.len(),
{
    if cs.len() == 0 || has_glob_char(cs[0]) {
        0
    } else {
        1 + literal_prefix_len(cs.drop_first())
    }
}

/// The root the walk descends from: the leading components of the pattern
/// up to the first one holding a metacharacter; `base` when there are none.
pub open spec fn literal_root_of(pattern: Seq<char>, base: Seq<char>) -> Seq<char> {
    let cs = components_of(pattern);
    let n = literal_prefix_len(cs);
    if n == 0 {
        base
    } else {
        joined_path_of(cs.take(n as int))
    }
}

proof fn lemma_literal_prefix_len(cs: Seq<Seq<char>>, i: int)
    requires
        0 <= i <= literal_prefix_len(cs),
    ensures
        literal_prefix_len(cs) <= cs.len(),
        literal_prefix_len(cs) == i + literal_prefix_len(cs.subrange(i, cs.len() as int)),
        literal_prefix_len(cs) < cs.len() ==> has_glob_char(cs[literal_prefix_len(cs) as int]),
    decreases cs.len(),
{
    if cs.len() > 0 && !has_glob_char(cs[0]) {
        lemma_literal_prefix_len(cs.drop_first(), if i > 0 { i - 1 } else { 0 });
        if i > 0 {
            assert(cs.drop_first().subrange(i - 1, cs.drop_first().len() as int) =~= cs.subrange(i, cs.len() as int));
        } else {
            assert(cs.subrange(0, cs.len() as int) =~= cs);
        }
        assert(cs.drop_first()[literal_prefix_len(cs.drop_first()) as int] == cs[literal_prefix_len(cs) as int]
            || literal_prefix_len(cs) >= cs.len());
    } else {
        assert(cs.subrange(0, cs.len() as int) =~= cs);
    }
}

/// The descent root of `pattern` (relative patterns fall back to `base`).
pub fn literal_root(pattern: &str, base: &str) -> (r: String)
    ensures
        r@ == literal_root_of(pattern@, base@),
{
    let comps = path_components(pattern);
    let ghost cs = components_of(pattern@);
    let mut taken: Vec<String> = Vec::new();
    let mut i: usize = 0;
    proof {
        lemma_literal_prefix_len(cs, 0);
    }
    while i < comps.len()
        invariant
            comps@.len() == cs.len(),
            forall|k: int| 0 <= k < comps@.len() ==> (#[trigger] comps@[k])@ == cs[k],
            i <= literal_prefix_len(cs),
            taken@.len() == i,
            forall|k: int| 0 <= k < i ==> (#[trigger] taken@[k])@ == cs[k],
            literal_prefix_len(cs) <= cs.len(),
        ensures
            i == literal_prefix_len(cs),
            taken@.len() == i,
            forall|k: int| 0 <= k < i ==> (#[trigger] taken@[k])@ == cs[k],
        decreases comps.len() - i,
    {
        let v = chars_of(comps[i].as_str());
        if glob_char_in(&v) {
            proof {
                lemma_literal_prefix_len(cs, i as int);
                if literal_prefix_len(cs) > i {
                    assert(literal_prefix_len(cs.subrange(i as int, cs.len() as int)) > 0);
                    assert(cs.subrange(i as int, cs.len() as int)[0] == cs[i as int]);
                    assert(!has_glob_char(cs[i as int]));
                }
            }
            break;
        }
        proof {
            lemma_literal_prefix_len(cs, i as int);
            assert(cs.subrange(i as int, cs.len() as int)[0] == cs[i as int]);
            assert(cs.subrange(i as int, cs.len() as int).drop_first() =~= cs.subrange(i + 1, cs.len() as int));
        }
        taken.push(comps[i].clone());
        i += 1;
    }
    if taken.len() == 0 {
        base.to_string()
    } else {
        let r = join_components(&taken);
        assert(taken@.map_values(|c: String| c@) =~= cs.take(i as int));
        r
    }
}

/// The `glob` tool's identity.
pub struct GlobTool {}

impl GlobTool {
    pub fn name(&self) -> (r: &'static str)
        ensures
            r@ == "glob"@,
    {
        "glob"
    }

    pub fn description(&self) -> (r: &'static str)
        ensures
            r@ == "Fast file pattern matching. Returns file paths matching the glob pattern (e.g. \"**/*.rs\")."@,
    {
        "Fast file pattern matching. Returns file paths matching the glob pattern (e.g. \"**/*.rs\")."
    }
}


/// Law: the walk skips exactly the version-control, dependency, build-output
/// and cache directories: `.git`, `node_modules`, `target`, `dist`, `.next`
/// and `.cache`. Each of them is pruned, and every other name is walked.
pub proof fn pruned_names_are_exactly_the_build_and_vcs_dirs(name: Seq<char>)
    ensures
        pruned(".git"@),
        pruned("node_modules"@),
        pruned("target"@),
        pruned("dist"@),
        pruned(".next"@),
        pruned(".cache"@),
        pruned(name) <==> set![".git"@, "node_modules"@, "target"@, "dist"@, ".next"@, ".cache"@].contains(name),
{
}

} // verus!
