//! The `ls` tool's listing: entry labels and their sorted, line-separated
//! listing. Reading the directory stays with the caller.

use vstd::prelude::*;
use crate::skill_context::{sorted_unique, strictly_sorted};
use crate::text::{push_char, push_str, string_from_chars};

verus! {

/// An entry's label: its name, with `/` after a directory's.
pub open spec fn label(name: Seq<char>, is_dir: bool) -> Seq<char> {
    if is_dir {
        name.push('/')
    } else {
        name
    }
}

pub fn entry_label(name: &str, is_dir: bool) -> (r: String)
    ensures
        r@ == label(name@, is_dir),
{
    let mut s = name.to_string();
    if is_dir {
        push_char(&mut s, '/');
    }
    s
}

/// Labels joined by line feeds.
pub open spec fn lines_of(ls: Seq<Seq<char>>) -> Seq<char>
    decreases ls.len(),
{
    if ls.len() == 0 {
        Seq::empty()
    } else if ls.len() == 1 {
        ls[0]
    } else {
        lines_of(ls.drop_last()) + seq!['\n'] + ls.last()
    }
}

/// The listing of a directory: `(empty)` when it has no entries, else its
/// labels sorted and one per line.
pub fn listing(labels: &[&str]) -> (r: String)
    ensures
        labels@.len() == 0 ==> r@ == "(empty)"@,
        labels@.len() > 0 ==> exists|sorted: Seq<Seq<char>>|
            {
                &&& strictly_sorted(sorted)
                &&& sorted.to_set() == labels@.map_values(|s: &str| s@).to_set()
                &&& r@ == lines_of(sorted)
            },
{
    if labels.len() == 0 {
        return "(empty)".to_string();
    }
    let sorted = sorted_unique(labels);
    let ghost ss = sorted@.map_values(|v: Vec<char>| v@);
    let mut out = String::new();
    let mut i: usize = 0;
    while i < sorted.len()
        invariant
            i <= sorted@.len(),
            ss == sorted@.map_values(|v: Vec<char>| v@),
            out@ == lines_of(ss.subrange(0, i as int)),
        decreases sorted.len() - i,
    {
        if i > 0 {
            push_char(&mut out, '\n');
        }
        let p = string_from_chars(&sorted[i]);
        push_str(&mut out, p.as_str());
        let ghost pre = ss.subrange(0, i as int);
        assert(ss.subrange(0, i + 1).drop_last() =~= pre);
        if i == 0 {
            assert(pre =~= Seq::<Seq<char>>::empty());
        }
        i += 1;
    }
    assert(ss.subrange(0, i as int) =~= ss);
    out
}

/// The `ls` tool's identity.
pub struct ListTool {}

impl ListTool {
    pub fn name(&self) -> (r: &'static str)
        ensures
            r@ == "ls"@,
    {
        "ls"
    }

    pub fn description(&self) -> (r: &'static str)
        ensures
            r@ == "Lists the contents of a directory. Returns names with a trailing '/' for directories."@,
    {
        "Lists the contents of a directory. Returns names with a trailing '/' for directories."
    }
}

} // verus!
