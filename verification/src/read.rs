//! The `read` tool's paging: which lines a call covers, how each line is
//! numbered and laid out, how the page stops at the token budget, and the
//! notice and metadata footer after it.

use vstd::prelude::*;
use crate::text::{decimal, push_char, push_decimal, push_str};

verus! {

broadcast use vstd::seq::group_seq_axioms;

/// Lines read when no `limit` is given.
pub const DEFAULT_LIMIT: usize = 200;
/// Most lines one call reads.
pub const MAX_LIMIT: usize = 1000;
/// Token budget of one response.
pub const MAX_TOKENS: usize = 5000;

/// `n` spaces.
pub open spec fn spaces(n: nat) -> Seq<char>
    decreases n,
{
    if n == 0 {
        Seq::empty()
    } else {
        spaces((n - 1) as nat).push(' ')
    }
}

/// Tabs expanded to the next multiple-of-8 column; the second component
/// is the column reached, modulo 8.
pub open spec fn tab_fold(s: Seq<char>) -> (Seq<char>, nat)
    decreases s.len(),
{
    if s.len() == 0 {
        (Seq::empty(), 0)
    } else {
        let (o, col) = tab_fold(s.drop_last());
        if s.last() == '\t' {
            (o + spaces((8 - col) as nat), 0)
        } else {
            (o.push(s.last()), (col + 1) % 8)
        }
    }
}

/// `line` with every tab expanded to spaces up to the next 8-column stop.
pub open spec fn tabs_expanded(line: Seq<char>) -> Seq<char> {
    tab_fold(line).0
}

/// Expand tabs to spaces, advancing to the next 8-column tab stop.
pub fn expand_tabs(line: &str) -> (r: String)
    ensures
        r@ == tabs_expanded(line@),
{
    let mut out = String::new();
    let mut col: usize = 0;
    for ch in it: line.chars()
        invariant
            it.seq() == line@,
            (out@, col as nat) == tab_fold(it.seq().take(it.index() as int)),
            col < 8,
    {
        proof {
            let pre = it.seq().take(it.index() as int);
            assert(it.seq().take(it.index() + 1).drop_last() =~= pre);
            assert(it.seq().take(it.index() + 1).last() == ch);
            lemma_tab_fold_col(pre);
        }
        if ch == '\t' {
            let n = 8 - col;
            let ghost before = out@;
            let mut k: usize = 0;
            while k < n
                invariant
                    k <= n <= 8,
                    out@ == before + spaces(k as nat),
                decreases n - k,
            {
                push_char(&mut out, ' ');
                assert(out@ =~= before + spaces((k + 1) as nat));
                k += 1;
            }
            col = 0;
        } else {
            push_char(&mut out, ch);
            col = (col + 1) % 8;
        }
    }
    assert(line@.take(line@.len() as int) =~= line@);
    out
}

proof fn lemma_tab_fold_col(s: Seq<char>)
    ensures
        tab_fold(s).1 < 8,
    decreases s.len(),
{
    if s.len() > 0 {
        lemma_tab_fold_col(s.drop_last());
    }
}

/// `format!("{:>5}", n)`: the decimal digits right-aligned in five columns.
pub open spec fn right5(n: nat) -> Seq<char> {
    if decimal(n).len() < 5 {
        spaces((5 - decimal(n).len()) as nat) + decimal(n)
    } else {
        decimal(n)
    }
}

/// Line `n` (1-based) as shown to the model: number, colon, the line with
/// its tabs expanded.
pub open spec fn numbered_line(n: nat, line: Seq<char>) -> Seq<char> {
    right5(n) + ": "@ + tabs_expanded(line) + "\n"@
}

proof fn lemma_decimal_len(n: nat)
    ensures
        n < 10 ==> decimal(n).len() == 1,
        10 <= n < 100 ==> decimal(n).len() == 2,
        100 <= n < 1000 ==> decimal(n).len() == 3,
        1000 <= n < 10000 ==> decimal(n).len() == 4,
        n >= 10000 ==> decimal(n).len() >= 5,
    decreases n,
{
    if n >= 10 {
        lemma_decimal_len(n / 10);
    }
}

/// Spaces needed to right-align `n` in five columns.
fn pad_width(n: u64) -> (k: usize)
    ensures
        decimal(n as nat).len() < 5 ==> k == 5 - decimal(n as nat).len(),
        decimal(n as nat).len() >= 5 ==> k == 0,
{
    proof {
        lemma_decimal_len(n as nat);
    }
    if n < 10 {
        4
    } else if n < 100 {
        3
    } else if n < 1000 {
        2
    } else if n < 10000 {
        1
    } else {
        0
    }
}

/// Append line `n` of the page, numbered and with its tabs expanded.
fn push_numbered_line(out: &mut String, n: u64, line: &str)
    ensures
        final(out)@ == old(out)@ + numbered_line(n as nat, line@),
{
    let ghost start = out@;
    let pad = pad_width(n);
    {
        let mut i: usize = 0;
        while i < pad
            invariant
                i <= pad <= 5,
                out@ == start + spaces(i as nat),
            decreases pad - i,
        {
            push_char(out, ' ');
            assert(out@ =~= start + spaces((i + 1) as nat));
            i += 1;
        }
    }
    push_decimal(out, n);
    push_str(out, ": ");
    let e = expand_tabs(line);
    push_str(out, e.as_str());
    push_str(out, "\n");
    assert(out@ =~= start + numbered_line(n as nat, line@));
}

/// The lines `[start, end)` (0-based) a call covers: `offset` is 1-based
/// (default 1, at least 1), `limit` defaults to 200 and is capped at 1000;
/// both ends stay within the file.
pub open spec fn read_window(total: nat, offset: Option<u64>, limit: Option<u64>) -> (nat, nat) {
    let off: nat = match offset {
        Some(n) => if n < 1 { 1 } else { n as nat },
        None => 1,
    };
    let lim: nat = match limit {
        Some(n) => if n > 1000 { 1000 } else { n as nat },
        None => 200,
    };
    let start: nat = if off - 1 < total { (off - 1) as nat } else { total };
    let end: nat = if start + lim < total { start + lim } else { total };
    (start, end)
}

/// The end of what a call counts as read: an oversized first line that
/// the budget refused still counts, so the next read starts after it.
pub open spec fn read_end(start: nat, requested_end: nat, actual_end: nat) -> nat {
    if actual_end == start && start < requested_end {
        start + 1
    } else {
        actual_end
    }
}

/// The footer after the page: `(empty)` for an empty page, then the
/// notice when the token budget cut the window short (an oversized first
/// line is skipped so the next read makes progress), then the metadata.
pub open spec fn read_footer(out: Seq<char>, total: nat, start: nat, requested_end: nat, actual_end: nat) -> Seq<char> {
    let first_oversized = actual_end == start && start < requested_end;
    let end = read_end(start, requested_end, actual_end);
    let next = end + 1;
    (if out.len() == 0 { "(empty)\n"@ } else { out }) + "\n"@ + (if end < requested_end {
        if first_oversized {
            "[INCOMPLETE READ] line "@ + decimal(start + 1)
                + " exceeded the token limit and was skipped; re-read with offset="@ + decimal(next)
                + " to continue.\n"@
        } else {
            "[INCOMPLETE READ] output truncated at token limit; re-read with offset="@ + decimal(next)
                + " to continue.\n"@
        }
    } else {
        Seq::empty()
    }) + "--- metadata ---\n"@ + "total_lines: "@ + decimal(total) + "\n"@ + "offset: "@ + decimal(
        start + 1,
    ) + "\n"@ + "lines_read: "@ + decimal((end - start) as nat) + "\n"@
}

/// The text of the lines `[start, end)` of `lines`, numbered.
pub open spec fn page_text(lines: Seq<String>, start: nat, end: nat) -> Seq<char>
    decreases end - start,
{
    if end <= start {
        Seq::empty()
    } else {
        page_text(lines, start, (end - 1) as nat) + numbered_line(end as nat, lines[end - 1]@)
    }
}

/// One `read` response being assembled: the lines taken so far, and
/// whether the token budget stopped it.
pub struct ReadPage {
    out: String,
    start: usize,
    taken_end: usize,
    requested_end: usize,
    stopped: bool,
}

impl ReadPage {
    pub closed spec fn start_spec(&self) -> nat {
        self.start as nat
    }

    pub closed spec fn end_spec(&self) -> nat {
        self.taken_end as nat
    }

    pub closed spec fn requested_end_spec(&self) -> nat {
        self.requested_end as nat
    }

    pub closed spec fn stopped_spec(&self) -> bool {
        self.stopped
    }

    pub closed spec fn text(&self) -> Seq<char> {
        self.out@
    }

    /// The page covers `[start, taken_end)` of `lines`.
    pub open spec fn wf(&self, lines: Seq<String>) -> bool {
        &&& self.start_spec() <= self.end_spec() <= self.requested_end_spec() <= lines.len()
        &&& self.text() == page_text(lines, self.start_spec(), self.end_spec())
    }

    /// The window of a call on a file of `total` lines.
    pub fn window(total: usize, offset: Option<u64>, limit: Option<u64>) -> (r: (usize, usize))
        ensures
            (r.0 as nat, r.1 as nat) == read_window(total as nat, offset, limit),
    {
        let off: u64 = match offset {
            Some(n) => if n < 1 { 1 } else { n },
            None => 1,
        };
        let lim: u64 = match limit {
            Some(n) => if n > 1000 { 1000 } else { n },
            None => 200,
        };
        let start: usize = if off - 1 < total as u64 { (off - 1) as usize } else { total };
        let end: usize = if lim < (total - start) as u64 { start + lim as usize } else { total };
        (start, end)
    }

    /// An empty page for the window `[start, requested_end)`.
    pub fn new(lines: &Vec<String>, start: usize, requested_end: usize) -> (p: Self)
        requires
            start <= requested_end <= lines@.len(),
        ensures
            p.wf(lines@),
            p.start_spec() == start,
            p.end_spec() == start,
            p.requested_end_spec() == requested_end,
            !p.stopped_spec(),
    {
        ReadPage { out: String::new(), start, taken_end: start, requested_end, stopped: false }
    }

    /// The text to measure before taking the next line: the page so far
    /// plus that line. `None` once the window is done or the budget hit.
    pub fn trial(&self, lines: &Vec<String>) -> (r: Option<String>)
        requires
            self.wf(lines@),
            lines@.len() < u64::MAX,
        ensures
            match r {
                Some(t) => !self.stopped_spec() && self.end_spec() < self.requested_end_spec()
                    && t@ == page_text(lines@, self.start_spec(), self.end_spec() + 1),
                None => self.stopped_spec() || self.end_spec() == self.requested_end_spec(),
            },
    {
        if self.stopped || self.taken_end >= self.requested_end {
            return None;
        }
        let mut t = self.out.clone();
        push_numbered_line(&mut t, (self.taken_end as u64) + 1, lines[self.taken_end].as_str());
        Some(t)
    }

    /// Take the measured trial when it is within budget; otherwise the
    /// page stops here.
    pub fn offer(&mut self, lines: &Vec<String>, trial: String, over_budget: bool)
        requires
            old(self).wf(lines@),
            !old(self).stopped_spec(),
            old(self).end_spec() < old(self).requested_end_spec(),
            trial@ == page_text(lines@, old(self).start_spec(), old(self).end_spec() + 1),
        ensures
            final(self).wf(lines@),
            final(self).start_spec() == old(self).start_spec(),
            final(self).requested_end_spec() == old(self).requested_end_spec(),
            over_budget ==> final(self).end_spec() == old(self).end_spec() && final(self).stopped_spec(),
            !over_budget ==> final(self).end_spec() == old(self).end_spec() + 1 && !final(self).stopped_spec(),
    {
        if over_budget {
            self.stopped = true;
        } else {
            self.out = trial;
            self.taken_end = self.taken_end + 1;
        }
    }

    /// The response: the page and its footer.
    pub fn finish(self, total: usize) -> (r: String)
        requires
            self.start_spec() <= self.end_spec() <= self.requested_end_spec() <= total,
            total < u64::MAX,
        ensures
            r@ == read_footer(self.text(), total as nat, self.start_spec(), self.requested_end_spec(), self.end_spec()),
    {
        finish_read(self.out, total, self.start, self.requested_end, self.taken_end)
    }
}

/// Append the footer to a page of `[start, actual_end)` of the window
/// `[start, requested_end)` of a `total`-line file.
pub fn finish_read(out: String, total: usize, start: usize, requested_end: usize, actual_end: usize) -> (r: String)
    requires
        start <= actual_end <= requested_end <= total,
        total < u64::MAX,
    ensures
        r@ == read_footer(out@, total as nat, start as nat, requested_end as nat, actual_end as nat),
{
    let first_oversized = actual_end == start && start < requested_end;
    let end = if first_oversized { start + 1 } else { actual_end };
    let next = (end as u64) + 1;
    let mut r = if out.as_str().is_empty() {
        "(empty)\n".to_string()
    } else {
        out
    };
    let ghost body = r@;
    push_str(&mut r, "\n");
    if end < requested_end {
        if first_oversized {
            push_str(&mut r, "[INCOMPLETE READ] line ");
            push_decimal(&mut r, (start as u64) + 1);
            push_str(&mut r, " exceeded the token limit and was skipped; re-read with offset=");
            push_decimal(&mut r, next);
            push_str(&mut r, " to continue.\n");
        } else {
            push_str(&mut r, "[INCOMPLETE READ] output truncated at token limit; re-read with offset=");
            push_decimal(&mut r, next);
            push_str(&mut r, " to continue.\n");
        }
    }
    push_str(&mut r, "--- metadata ---\n");
    push_str(&mut r, "total_lines: ");
    push_decimal(&mut r, total as u64);
    push_str(&mut r, "\n");
    push_str(&mut r, "offset: ");
    push_decimal(&mut r, (start as u64) + 1);
    push_str(&mut r, "\n");
    push_str(&mut r, "lines_read: ");
    push_decimal(&mut r, (end - start) as u64);
    push_str(&mut r, "\n");
    assert(r@ =~= read_footer(out@, total as nat, start as nat, requested_end as nat, actual_end as nat));
    r
}

/// The `read` tool's identity.
pub struct ReadTool {}

impl ReadTool {
    pub fn name(&self) -> (r: &'static str)
        ensures
            r@ == "read"@,
    {
        "read"
    }

    pub fn description(&self) -> (r: &'static str)
        ensures
            r@ == "Reads a UTF-8 text file from the filesystem. Returns up to 200 lines by default (max 1000 per call). Appends a metadata footer (total_lines, offset, lines_read); a notice is shown only when the token limit truncates the requested range."@,
    {
        "Reads a UTF-8 text file from the filesystem. Returns up to 200 lines by default (max 1000 per call). Appends a metadata footer (total_lines, offset, lines_read); a notice is shown only when the token limit truncates the requested range."
    }
}

/// A read of a non-empty window always makes progress: at least one line
/// counts as read, and the offset a notice asks to re-read from lies past
/// the offset of this call.
pub proof fn read_always_advances(start: nat, requested_end: nat, actual_end: nat)
    requires
        start <= actual_end <= requested_end,
        start < requested_end,
    ensures
        read_end(start, requested_end, actual_end) >= start + 1,
        read_end(start, requested_end, actual_end) + 1 > start + 1,
        read_end(start, requested_end, actual_end) <= requested_end,
{
}

/// Expanding tabs leaves no tab behind.
pub proof fn expanded_line_has_no_tabs(line: Seq<char>)
    ensures
        forall|k: int| 0 <= k < tabs_expanded(line).len() ==> #[trigger] tabs_expanded(line)[k] != '\t',
    decreases line.len(),
{
    if line.len() > 0 {
        expanded_line_has_no_tabs(line.drop_last());
        let (o, col) = tab_fold(line.drop_last());
        lemma_spaces((8 - col) as nat);
        let r = tabs_expanded(line);
        assert forall|k: int| 0 <= k < r.len() implies #[trigger] r[k] != '\t' by {
            lemma_tab_fold_col(line.drop_last());
            if k < o.len() {
                assert(r[k] == o[k]);
                assert(tabs_expanded(line.drop_last())[k] != '\t');
            } else if line.last() == '\t' {
                assert(r == o + spaces((8 - col) as nat));
                assert(r[k] == spaces((8 - col) as nat)[k - o.len()]);
            } else {
                assert(r == o.push(line.last()));
            }
        }
    }
}

proof fn lemma_spaces(n: nat)
    ensures
        spaces(n).len() == n,
        forall|k: int| 0 <= k < n ==> #[trigger] spaces(n)[k] == ' ',
    decreases n,
{
    if n > 0 {
        lemma_spaces((n - 1) as nat);
    }
}

} // verus!
