//! The `grep` tool's text pieces: the regex an include glob stands for and
//! the rows it answers with. Walking files and running the regex stay with
//! the caller.

use vstd::prelude::*;
use crate::text::{chars_of, decimal, push_char, push_decimal, push_str, trim_end};

verus! {

/// Most rows one call returns.
pub const MAX_ROWS: usize = 1000;

/// A character the regex syntax gives a meaning to.
pub open spec fn regex_special(c: char) -> bool {
    c == '\\' || c == '.' || c == '+' || c == '(' || c == ')' || c == '[' || c == ']' || c == '{' || c == '}'
        || c == '|' || c == '^' || c == '$'
}

/// The regex text of a glob, before the closing `$`.
pub open spec fn glob_body(g: Seq<char>) -> Seq<char>
    decreases g.len(),
{
    if g.len() == 0 {
        Seq::empty()
    } else {
        let c = g.last();
        glob_body(g.drop_last()) + if c == '*' {
            seq!['.', '*']
        } else if c == '?' {
            seq!['.']
        } else if regex_special(c) {
            seq!['\\', c]
        } else {
            seq![c]
        }
    }
}

/// The anchored regex a file-name glob stands for: `*` any run, `?` any
/// character, regex syntax escaped.
pub open spec fn glob_regex(g: Seq<char>) -> Seq<char> {
    seq!['^'] + glob_body(g) + seq!['$']
}

pub fn glob_to_regex(glob: &str) -> (r: String)
    ensures
        r@ == glob_regex(glob@),
{
    let mut s = String::new();
    push_char(&mut s, '^');
    for ch in it: glob.chars()
        invariant
            it.seq() == glob@,
            s@ == seq!['^'] + glob_body(it.seq().take(it.index() as int)),
    {
        assert(it.seq().take(it.index() + 1).drop_last() =~= it.seq().take(it.index() as int));
        if ch == '*' {
            push_char(&mut s, '.');
            push_char(&mut s, '*');
        } else if ch == '?' {
            push_char(&mut s, '.');
        } else if ch == '\\' || ch == '.' || ch == '+' || ch == '(' || ch == ')' || ch == '[' || ch == ']'
            || ch == '{' || ch == '}' || ch == '|' || ch == '^' || ch == '$' {
            push_char(&mut s, '\\');
            push_char(&mut s, ch);
        } else {
            push_char(&mut s, ch);
        }
        assert(s@ =~= seq!['^'] + glob_body(it.seq().take(it.index() + 1)));
    }
    assert(glob@.take(glob@.len() as int) =~= glob@);
    push_char(&mut s, '$');
    s
}

/// A matching line as shown: path, 1-based line number, the line without
/// trailing whitespace.
pub open spec fn grep_row_text(path: Seq<char>, n: u64, line: Seq<char>) -> Seq<char> {
    path + ":"@ + decimal(n as nat) + ": "@ + trim_end(line)
}

pub fn grep_row(path: &str, n: u64, line: &str) -> (r: String)
    ensures
        r@ == grep_row_text(path@, n, line@),
{
    let mut s = String::new();
    push_str(&mut s, path);
    push_str(&mut s, ":");
    push_decimal(&mut s, n);
    push_str(&mut s, ": ");
    let v = chars_of(line);
    assert(v@.subrange(0, v@.len() as int) =~= v@);
    let mut e = v.len();
    while e > 0 && crate::text::unicode_ws(v[e - 1])
        invariant
            e <= v@.len(),
            crate::text::trim_end_index(v@) == crate::text::trim_end_index(v@.subrange(0, e as int)),
        decreases e,
    {
        assert(v@.subrange(0, e as int).drop_last() =~= v@.subrange(0, e - 1));
        e -= 1;
    }
    assert(crate::text::trim_end_index(v@.subrange(0, e as int)) == e);
    let t = crate::text::string_from_range(&v, 0, e);
    push_str(&mut s, t.as_str());
    s
}

/// The `grep` tool's identity.
pub struct GrepTool {}

impl GrepTool {
    pub fn name(&self) -> (r: &'static str)
        ensures
            r@ == "grep"@,
    {
        "grep"
    }

    pub fn description(&self) -> (r: &'static str)
        ensures
            r@ == "Searches file contents with a regex. Returns matching lines with file:line prefixes. Searches recursively under the given path (default working dir)."@,
    {
        "Searches file contents with a regex. Returns matching lines with file:line prefixes. Searches recursively under the given path (default working dir)."
    }
}


proof fn lemma_glob_body_concat(a: Seq<char>, b: Seq<char>)
    ensures
        glob_body(a + b) == glob_body(a) + glob_body(b),
    decreases b.len(),
{
    if b.len() == 0 {
        assert(a + b =~= a);
        assert(glob_body(a) + glob_body(b) =~= glob_body(a));
    } else {
        lemma_glob_body_concat(a, b.drop_last());
        assert((a + b).drop_last() =~= a + b.drop_last());
        assert((a + b).last() == b.last());
    }
}

/// Law: a glob's regex is built piece by piece: the regex of a joined glob
/// is the joined regex of its parts; `*` stands for any run (`.*`), `?`
/// for any one character (`.`), a regex-special character is escaped, and
/// any other character stands for itself, so a glob without `*`, `?` or
/// regex syntax matches exactly its own text.
pub proof fn glob_regex_is_built_piecewise(a: Seq<char>, b: Seq<char>, c: char)
    ensures
        glob_regex(a + b) == seq!['^'] + glob_body(a) + glob_body(b) + seq!['$'],
        glob_body(seq!['*']) == seq!['.', '*'],
        glob_body(seq!['?']) == seq!['.'],
        regex_special(c) ==> glob_body(seq![c]) == seq!['\\', c],
        (forall|i: int| 0 <= i < a.len() ==> !(#[trigger] a[i] == '*' || a[i] == '?' || regex_special(a[i])))
            ==> glob_regex(a) == seq!['^'] + a + seq!['$'],
{
    lemma_glob_body_concat(a, b);
    assert(seq!['*'].drop_last() =~= Seq::<char>::empty());
    assert(seq!['?'].drop_last() =~= Seq::<char>::empty());
    assert(glob_body(Seq::<char>::empty()) == Seq::<char>::empty());
    assert(seq!['*'].last() == '*');
    assert(seq!['?'].last() == '?');
    assert(glob_body(seq!['*']) =~= seq!['.', '*']);
    assert(glob_body(seq!['?']) =~= seq!['.']);
    assert(seq![c].drop_last() =~= Seq::<char>::empty());
    if forall|i: int| 0 <= i < a.len() ==> !(#[trigger] a[i] == '*' || a[i] == '?' || regex_special(a[i])) {
        lemma_plain_glob(a);
    }
}

proof fn lemma_plain_glob(a: Seq<char>)
    requires
        forall|i: int| 0 <= i < a.len() ==> !(#[trigger] a[i] == '*' || a[i] == '?' || regex_special(a[i])),
    ensures
        glob_body(a) == a,
    decreases a.len(),
{
    if a.len() > 0 {
        let a0 = a.drop_last();
        assert forall|i: int| 0 <= i < a0.len() implies !(#[trigger] a0[i] == '*' || a0[i] == '?' || regex_special(a0[i])) by {
            assert(a0[i] == a[i]);
        }
        lemma_plain_glob(a0);
        assert(!(a[a.len() - 1] == '*' || a[a.len() - 1] == '?' || regex_special(a[a.len() - 1])));
        assert(a0.push(a.last()) =~= a);
    }
}

} // verus!
