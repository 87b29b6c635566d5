//! The `search` tool's result collection: `path:line: text` rows, capped
//! at a number of matches and at an output byte budget (cut on a character
//! boundary), and the rendering of the rows. Walking the tree and running
//! the regex engine stay with the caller.

use vstd::prelude::*;
use crate::bash::utf8_lossy;
use crate::text::{decimal, push_char, push_decimal, push_str};

verus! {

broadcast use vstd::seq::group_seq_axioms;

/// Most matching lines one search returns.
pub const MAX_MATCHES: usize = 1000;
/// Longest line the engine buffers, in bytes.
pub const LINE_BYTES: usize = 1048576;
/// Output byte budget of the collected rows.
pub const OUTPUT_BYTES: usize = 65536;

/// Bytes of the UTF-8 encoding of `c`.
pub open spec fn utf8_len(c: char) -> nat {
    if (c as u32) < 0x80 {
        1
    } else if (c as u32) < 0x800 {
        2
    } else if (c as u32) < 0x10000 {
        3
    } else {
        4
    }
}

/// Bytes of the UTF-8 encoding of `s`.
pub open spec fn utf8_size(s: Seq<char>) -> nat
    decreases s.len(),
{
    if s.len() == 0 {
        0
    } else {
        utf8_size(s.drop_last()) + utf8_len(s.last())
    }
}

/// The longest prefix of `s` whose encoding fits in `budget` bytes.
pub open spec fn fitting_prefix_len(s: Seq<char>, budget: nat) -> nat
    decreases s.len(),
{
    if s.len() == 0 {
        0
    } else if utf8_size(s) <= budget {
        s.len()
    } else {
        fitting_prefix_len(s.drop_last(), budget)
    }
}

pub(crate) fn char_utf8_len(c: char) -> (n: usize)
    ensures
        n == utf8_len(c),
{
    let x = c as u32;
    if x < 0x80 {
        1
    } else if x < 0x800 {
        2
    } else if x < 0x10000 {
        3
    } else {
        4
    }
}

/// `s` without its trailing `\r` and `\n` characters.
pub open spec fn trim_line_end(s: Seq<char>) -> Seq<char>
    decreases s.len(),
{
    if s.len() > 0 && (s.last() == '\r' || s.last() == '\n') {
        trim_line_end(s.drop_last())
    } else {
        s
    }
}

/// A match row: relative path, line number, the line without its line end.
pub open spec fn row_text(rel: Seq<char>, line: u64, text: Seq<char>) -> Seq<char> {
    rel + ":"@ + decimal(line as nat) + ": "@ + trim_line_end(text)
}

/// Bytes of the UTF-8 encoding of all rows.
pub open spec fn rows_size(rows: Seq<Seq<char>>) -> nat
    decreases rows.len(),
{
    if rows.len() == 0 {
        0
    } else {
        rows_size(rows.drop_last()) + utf8_size(rows.last())
    }
}

/// Collects match rows for one search.
pub struct Collector {
    results: Vec<String>,
    rel: String,
    max: usize,
    bytes: usize,
    truncated: bool,
}

impl Collector {
    pub closed spec fn rows(&self) -> Seq<Seq<char>> {
        self.results@.map_values(|r: String| r@)
    }

    /// Path of the file being searched, relative to the search root.
    pub closed spec fn rel_spec(&self) -> Seq<char> {
        self.rel@
    }

    pub closed spec fn max_spec(&self) -> nat {
        self.max as nat
    }

    pub closed spec fn bytes_spec(&self) -> nat {
        self.bytes as nat
    }

    pub closed spec fn truncated_spec(&self) -> bool {
        self.truncated
    }

    /// The bytes counted are those of the rows kept, within the budget.
    pub open spec fn wf(&self) -> bool {
        &&& self.bytes_spec() == rows_size(self.rows())
        &&& self.bytes_spec() <= OUTPUT_BYTES
        &&& self.rows().len() <= self.max_spec()
    }

    /// The collection is full: enough rows, or the byte budget is spent.
    pub open spec fn full_spec(&self) -> bool {
        self.rows().len() >= self.max_spec() || self.truncated_spec()
    }

    /// An empty collector keeping at most `max` rows.
    pub fn new(max: usize) -> (c: Self)
        ensures
            c.wf(),
            c.rows().len() == 0,
            c.max_spec() == max,
            c.bytes_spec() == 0,
            !c.truncated_spec(),
            c.rel_spec().len() == 0,
    {
        let c = Collector { results: Vec::new(), rel: String::new(), max, bytes: 0, truncated: false };
        assert(c.rows() =~= Seq::<Seq<char>>::empty());
        c
    }

    /// Switch to the next file, at path `rel` relative to the root.
    pub fn set_rel(&mut self, rel: String)
        requires
            old(self).wf(),
        ensures
            final(self).wf(),
            final(self).rel_spec() == rel@,
            final(self).rows() == old(self).rows(),
            final(self).max_spec() == old(self).max_spec(),
            final(self).bytes_spec() == old(self).bytes_spec(),
            final(self).truncated_spec() == old(self).truncated_spec(),
    {
        self.rel = rel;
    }

    pub fn full(&self) -> (b: bool)
        requires
            self.wf(),
        ensures
            b == self.full_spec(),
    {
        self.results.len() >= self.max || self.truncated
    }

    pub fn is_truncated(&self) -> (b: bool)
        ensures
            b == self.truncated_spec(),
    {
        self.truncated
    }

    /// The rows collected so far.
    pub fn results(&self) -> (r: &Vec<String>)
        ensures
            r@.map_values(|s: String| s@) == self.rows(),
    {
        &self.results
    }

    /// Take one match on line `line` of the current file, whose bytes are
    /// `bytes`. Nothing is taken once full. Otherwise the row is kept, cut
    /// to the bytes left in the budget (on a character boundary); the
    /// budget is spent when the row did not fit whole or filled it. Returns
    /// whether more matches are wanted.
    pub fn matched(&mut self, line: u64, bytes: &[u8]) -> (more: bool)
        requires
            old(self).wf(),
        ensures
            final(self).wf(),
            final(self).max_spec() == old(self).max_spec(),
            final(self).rel_spec() == old(self).rel_spec(),
            old(self).full_spec() ==> *final(self) == *old(self) && !more,
            !old(self).full_spec() ==> ({
                let row = row_text(old(self).rel_spec(), line, utf8_lossy(bytes@));
                let remaining = (OUTPUT_BYTES - old(self).bytes_spec()) as nat;
                let keep = fitting_prefix_len(row, remaining);
                &&& final(self).rows() == old(self).rows().push(row.take(keep as int))
                &&& final(self).bytes_spec() == old(self).bytes_spec() + utf8_size(row.take(keep as int))
                &&& final(self).truncated_spec() == (keep < row.len() || utf8_size(row) >= remaining)
            }),
            more == !final(self).full_spec(),
    {
        if self.results.len() >= self.max || self.truncated {
            return false;
        }
        let text = crate::bash::lossy_text(bytes);
        let tv = crate::text::chars_of(text.as_str());
        let mut e = tv.len();
        assert(tv@.subrange(0, tv@.len() as int) =~= tv@);
        while e > 0 && (tv[e - 1] == '\r' || tv[e - 1] == '\n')
            invariant
                e <= tv@.len(),
                trim_line_end(tv@) == trim_line_end(tv@.subrange(0, e as int)),
            decreases e,
        {
            assert(tv@.subrange(0, e as int).drop_last() =~= tv@.subrange(0, e - 1));
            e -= 1;
        }
        assert(tv@.subrange(0, tv@.len() as int) =~= tv@);
        let mut row: Vec<char> = crate::text::chars_of(self.rel.as_str());
        row.push(':');
        let num = crate::text::u64_to_decimal(line);
        let nv = crate::text::chars_of(num.as_str());
        let ghost r0 = row@;
        crate::text::extend_from_range(&mut row, &nv, 0, nv.len());
        row.push(':');
        row.push(' ');
        crate::text::extend_from_range(&mut row, &tv, 0, e);
        proof {
            reveal_strlit(":");
            reveal_strlit(": ");
            assert(nv@.subrange(0, nv@.len() as int) =~= nv@);
            assert(row@ =~= row_text(self.rel@, line, utf8_lossy(bytes@)));
        }
        let remaining = OUTPUT_BYTES - self.bytes;
        // The longest prefix of the row that fits in the budget.
        let mut fit: usize = 0;
        let mut fit_size: usize = 0;
        while fit < row.len()
            invariant
                fit <= row@.len(),
                fit_size == utf8_size(row@.take(fit as int)),
                fit_size <= remaining,
            ensures
                fit <= row@.len(),
                fit_size == utf8_size(row@.take(fit as int)),
                fit_size <= remaining,
                fit < row@.len() ==> utf8_size(row@.take(fit + 1int)) > remaining,
            decreases row.len() - fit,
        {
            let n = char_utf8_len(row[fit]);
            assert(row@.take(fit + 1int).drop_last() =~= row@.take(fit as int));
            if n > remaining - fit_size {
                break;
            }
            fit_size = fit_size + n;
            fit += 1;
        }
        proof {
            lemma_fitting_prefix(row@, remaining as nat, fit as nat);
            assert(row@.take(row@.len() as int) =~= row@);
            if fit == row@.len() {
                assert(utf8_size(row@) == fit_size);
            }
        }
        let kept = crate::text::string_from_range(&row, 0, fit);
        self.truncated = fit < row.len() || fit_size >= remaining;
        self.bytes = self.bytes + fit_size;
        self.results.push(kept);
        proof {
            assert(row@.subrange(0, fit as int) =~= row@.take(fit as int));
            assert(self.rows() =~= old(self).rows().push(row@.take(fit as int)));
            assert(self.rows().drop_last() =~= old(self).rows());
        }
        !(self.results.len() >= self.max || self.truncated)
    }
}

proof fn lemma_utf8_size_mono(s: Seq<char>, i: nat, j: nat)
    requires
        i <= j <= s.len(),
    ensures
        utf8_size(s.take(i as int)) <= utf8_size(s.take(j as int)),
    decreases j - i,
{
    if i < j {
        lemma_utf8_size_mono(s, i, (j - 1) as nat);
        assert(s.take(j as int).drop_last() =~= s.take(j - 1));
    }
}

/// The longest fitting prefix is `fit` when `fit` fits and one more does
/// not (or `fit` is everything).
proof fn lemma_fitting_prefix(s: Seq<char>, budget: nat, fit: nat)
    requires
        fit <= s.len(),
        utf8_size(s.take(fit as int)) <= budget,
        fit < s.len() ==> utf8_size(s.take(fit + 1int)) > budget,
    ensures
        fitting_prefix_len(s, budget) == fit,
    decreases s.len(),
{
    assert(s.take(s.len() as int) =~= s);
    if s.len() == 0 {
    } else if fit == s.len() {
    } else {
        lemma_utf8_size_mono(s, fit + 1, s.len());
        let t = s.drop_last();
        assert(t.take(fit as int) =~= s.take(fit as int));
        if fit < t.len() {
            assert(t.take(fit + 1int) =~= s.take(fit + 1int));
        }
        lemma_fitting_prefix(t, budget, fit);
    }
}

/// The rows joined by line feeds.
pub open spec fn joined_rows(rows: Seq<Seq<char>>) -> Seq<char>
    decreases rows.len(),
{
    if rows.len() == 0 {
        Seq::empty()
    } else if rows.len() == 1 {
        rows[0]
    } else {
        joined_rows(rows.drop_last()) + seq!['\n'] + rows.last()
    }
}

/// The answer of a search: `no matches`, or the rows, with a line saying
/// the match cap or the byte budget cut it short.
pub open spec fn search_answer(rows: Seq<Seq<char>>, max: nat, truncated: bool) -> Seq<char> {
    if rows.len() == 0 {
        "no matches"@
    } else {
        joined_rows(rows) + (if rows.len() >= max {
            "\n(truncated at 1000 matches)"@
        } else {
            Seq::empty()
        }) + (if truncated {
            "\n(truncated at search output byte limit)"@
        } else {
            Seq::empty()
        })
    }
}

impl Collector {
    pub fn answer(&self) -> (r: String)
        ensures
            r@ == search_answer(self.rows(), self.max_spec(), self.truncated_spec()),
    {
        if self.results.len() == 0 {
            return "no matches".to_string();
        }
        let ghost rs = self.rows();
        let mut out = String::new();
        let mut i: usize = 0;
        while i < self.results.len()
            invariant
                i <= self.results@.len(),
                rs == self.results@.map_values(|r: String| r@),
                out@ == joined_rows(rs.subrange(0, i as int)),
            decreases self.results.len() - i,
        {
            if i > 0 {
                push_char(&mut out, '\n');
            }
            push_str(&mut out, self.results[i].as_str());
            assert(rs.subrange(0, i + 1).drop_last() =~= rs.subrange(0, i as int));
            if i == 0 {
                assert(rs.subrange(0, 0) =~= Seq::<Seq<char>>::empty());
            }
            i += 1;
        }
        assert(rs.subrange(0, i as int) =~= rs);
        if self.results.len() >= self.max {
            push_str(&mut out, "\n(truncated at 1000 matches)");
        }
        if self.truncated {
            push_str(&mut out, "\n(truncated at search output byte limit)");
        }
        out
    }
}

/// The collected rows together never exceed the output byte budget.
pub proof fn rows_stay_within_budget(c: Collector)
    requires
        c.wf(),
    ensures
        rows_size(c.rows()) <= OUTPUT_BYTES,
{
}

/// `p` relative to `base`, as `Path::strip_prefix` gives it; `None` when
/// `base` is not a prefix of `p`.
pub uninterp spec fn stripped_path_of(base: Seq<char>, p: Seq<char>) -> Option<Seq<char>>;

/// Calls `Path::strip_prefix` and displays the rest; claims only that the
/// result is a function of both paths (named `stripped_path_of`).
#[verifier::external_body]
fn strip_path_prefix(base: &str, p: &str) -> (r: Option<String>)
    ensures
        match r {
            Some(s) => stripped_path_of(base@, p@) == Some(s@),
            None => stripped_path_of(base@, p@) is None,
        },
{
    std::path::Path::new(p).strip_prefix(base).ok().map(|x| x.display().to_string())
}

/// A result path relative to the search root, or as is outside it.
pub fn rel_path(base: &str, p: &str) -> (r: String)
    ensures
        r@ == match stripped_path_of(base@, p@) {
            Some(s) => s,
            None => p@,
        },
{
    match strip_path_prefix(base, p) {
        Some(s) => s,
        None => p.to_string(),
    }
}

/// The refusal of a call without a pattern; `None` when there is one.
pub fn pattern_refusal(pattern: &str) -> (r: Option<&'static str>)
    ensures
        r is Some <==> pattern@.len() == 0,
        r matches Some(m) ==> m@ == "search requires a non-empty 'pattern'"@,
{
    if pattern.is_empty() {
        Some("search requires a non-empty 'pattern'")
    } else {
        None
    }
}

/// The `search` tool's identity.
pub struct SearchTool {}

impl SearchTool {
    pub fn name(&self) -> (r: &'static str)
        ensures
            r@ == "search"@,
    {
        "search"
    }

    pub fn description(&self) -> (r: &'static str)
        ensures
            r@ == "Searches file contents for a regex and returns matching lines as `path:line: content`. Respects .gitignore and .ignore by default and skips hidden/binary files. Provide `include` to filter by file name (e.g. \"*.rs\"). Powered by the ripgrep engine."@,
    {
        "Searches file contents for a regex and returns matching lines as `path:line: content`. Respects .gitignore and .ignore by default and skips hidden/binary files. Provide `include` to filter by file name (e.g. \"*.rs\"). Powered by the ripgrep engine."
    }
}

/// The physical directories a symlink-following walk has entered, by
/// device and inode.
pub struct VisitedDirs {
    seen: Vec<(u64, u64)>,
}

impl VisitedDirs {
    /// The directories entered so far.
    pub closed spec fn entered(&self) -> Set<(u64, u64)> {
        self.seen@.to_set()
    }

    pub fn new() -> (v: Self)
        ensures
            v.entered() == Set::<(u64, u64)>::empty(),
    {
        let v = VisitedDirs { seen: Vec::new() };
        proof {
            assert(v.seen@.to_set() =~= Set::<(u64, u64)>::empty());
        }
        v
    }

    /// Whether the walk may enter this directory: only the first time it
    /// is met; it counts as entered from then on.
    pub fn first_visit(&mut self, dev: u64, ino: u64) -> (first: bool)
        ensures
            first == !old(self).entered().contains((dev, ino)),
            final(self).entered() == old(self).entered().insert((dev, ino)),
    {
        let mut i: usize = 0;
        while i < self.seen.len()
            invariant
                i <= self.seen@.len(),
                forall|j: int| 0 <= j < i ==> self.seen@[j] != (dev, ino),
            decreases self.seen.len() - i,
        {
            if self.seen[i].0 == dev && self.seen[i].1 == ino {
                proof {
                    assert(self.seen@.to_set().contains(self.seen@[i as int]));
                    assert(self.seen@.to_set().insert((dev, ino)) =~= self.seen@.to_set());
                }
                return false;
            }
            i += 1;
        }
        let ghost before = self.seen@;
        proof {
            if before.to_set().contains((dev, ino)) {
                let j = choose|j: int| 0 <= j < before.len() && before[j] == (dev, ino);
                assert(before[j] == (dev, ino));
            }
        }
        self.seen.push((dev, ino));
        proof {
            assert(self.seen@.to_set() =~= before.to_set().insert((dev, ino))) by {
                assert forall|x: (u64, u64)| self.seen@.to_set().contains(x) implies before.to_set().insert((dev, ino)).contains(x) by {
                    let j = choose|j: int| 0 <= j < self.seen@.len() && self.seen@[j] == x;
                    if j < before.len() {
                        assert(before[j] == x);
                    }
                }
                assert forall|x: (u64, u64)| before.to_set().insert((dev, ino)).contains(x) implies self.seen@.to_set().contains(x) by {
                    if x == (dev, ino) {
                        assert(self.seen@[before.len() as int] == x);
                    } else {
                        let j = choose|j: int| 0 <= j < before.len() && before[j] == x;
                        assert(self.seen@[j] == x);
                    }
                }
            }
        }
        true
    }
}

} // verus!
