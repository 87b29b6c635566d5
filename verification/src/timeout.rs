//! Command-text timeout resolution for the bash tool.
//!
//! The foreground deadline of a bash command comes from its own text: the
//! historical silent `timeout N; command` prefix (stripped before
//! execution), else the largest command-position `timeout N`, else the
//! largest command-position `sleep N` plus a fixed padding, else the caller's
//! defaults. Quoted strings, comments and ordinary arguments never count.

use vstd::prelude::*;
use crate::text::{
    ascii_alnum, ascii_digit, ascii_ws, chars_of, is_ascii_alnum, is_ascii_digit, is_ascii_ws,
    range_eq, string_from_chars, string_from_range,
};

verus! {

pub const MIN_TIMEOUT_SECS: u64 = 30;
pub const MAX_TIMEOUT_SECS: u64 = 600;
pub const SLEEP_PADDING_SECS: u64 = 120;
pub const LEGACY_PROD_MIN_TIMEOUT_SECS: u64 = 120;

/// The resolved foreground deadline and the command text to execute.
#[derive(Debug, PartialEq, Eq)]
pub struct ResolvedTimeout {
    pub command: String,
    pub timeout_secs: u64,
    pub display_secs: u64,
}

// ---------------------------------------------------------------------------
// Specification
// ---------------------------------------------------------------------------

/// A character that ends a word for the scanner: ASCII whitespace or one of
/// the shell control characters `;|&(){}`.
pub open spec fn is_word_delim(c: char) -> bool {
    is_ascii_ws(c) || c == ';' || c == '|' || c == '&' || c == '(' || c == ')' || c == '{'
        || c == '}'
}

/// `v.clamp(lo, hi)`.
pub open spec fn clamp(v: u64, lo: u64, hi: u64) -> u64 {
    if v < lo {
        lo
    } else if v > hi {
        hi
    } else {
        v
    }
}

/// Index just past the closing `quote`, scanning from `i` (the first
/// character after the opening quote). Inside double quotes a backslash
/// escapes the following character. An unterminated quote runs to the end.
pub open spec fn quoted_end(s: Seq<char>, i: int, quote: char) -> int
    decreases s.len() - i,
{
    if i >= s.len() {
        i
    } else if s[i] == quote {
        i + 1
    } else if quote == '"' && s[i] == '\\' && i + 1 < s.len() {
        quoted_end(s, i + 2, quote)
    } else {
        quoted_end(s, i + 1, quote)
    }
}

pub proof fn lemma_quoted_end_bounds(s: Seq<char>, i: int, quote: char)
    requires
        0 <= i <= s.len(),
    ensures
        i <= quoted_end(s, i, quote) <= s.len(),
        i < s.len() ==> i < quoted_end(s, i, quote),
    decreases s.len() - i,
{
    if i >= s.len() {
    } else if s[i] == quote {
    } else if quote == '"' && s[i] == '\\' && i + 1 < s.len() {
        lemma_quoted_end_bounds(s, i + 2, quote);
    } else {
        lemma_quoted_end_bounds(s, i + 1, quote);
    }
}

/// Index just past the quoted string whose opening quote sits at `i`.
pub open spec fn skip_quoted_spec(s: Seq<char>, i: int, quote: char) -> int {
    quoted_end(s, i + 1, quote)
}

/// End of the shell word starting at `i`: stops at a delimiter, steps over
/// backslash escapes and embedded quoted strings.
pub open spec fn word_end(s: Seq<char>, i: int) -> int
    decreases s.len() - i,
{
    if i < 0 || i >= s.len() {
        i
    } else if is_word_delim(s[i]) {
        i
    } else if s[i] == '\\' && i + 1 < s.len() {
        word_end(s, i + 2)
    } else if s[i] == '\'' || s[i] == '"' {
        let j = skip_quoted_spec(s, i, s[i]);
        if j <= i || j > s.len() {
            i
        } else {
            word_end(s, j)
        }
    } else {
        word_end(s, i + 1)
    }
}

pub proof fn lemma_word_end_bounds(s: Seq<char>, i: int)
    requires
        0 <= i <= s.len(),
    ensures
        i <= word_end(s, i) <= s.len(),
        i < word_end(s, i) || i == s.len() || is_word_delim(s[i]),
    decreases s.len() - i,
{
    if i >= s.len() {
    } else if is_word_delim(s[i]) {
    } else if s[i] == '\\' && i + 1 < s.len() {
        lemma_word_end_bounds(s, i + 2);
    } else if s[i] == '\'' || s[i] == '"' {
        lemma_quoted_end_bounds(s, i + 1, s[i]);
        lemma_word_end_bounds(s, skip_quoted_spec(s, i, s[i]));
    } else {
        lemma_word_end_bounds(s, i + 1);
    }
}

/// First index at or after `i` that is not ASCII whitespace.
pub open spec fn ws_end(s: Seq<char>, i: int) -> int
    decreases s.len() - i,
{
    if 0 <= i < s.len() && is_ascii_ws(s[i]) {
        ws_end(s, i + 1)
    } else {
        i
    }
}

/// First index at or after `i` that is not an ASCII digit.
pub open spec fn digits_end(s: Seq<char>, i: int) -> int
    decreases s.len() - i,
{
    if 0 <= i < s.len() && is_ascii_digit(s[i]) {
        digits_end(s, i + 1)
    } else {
        i
    }
}

pub proof fn lemma_ws_end(s: Seq<char>, i: int)
    requires
        0 <= i <= s.len(),
    ensures
        i <= ws_end(s, i) <= s.len(),
        forall|k: int| i <= k < ws_end(s, i) ==> is_ascii_ws(#[trigger] s[k]),
        ws_end(s, i) < s.len() ==> !is_ascii_ws(s[ws_end(s, i)]),
    decreases s.len() - i,
{
    if i < s.len() && is_ascii_ws(s[i]) {
        lemma_ws_end(s, i + 1);
    }
}

pub proof fn lemma_digits_end(s: Seq<char>, i: int)
    requires
        0 <= i <= s.len(),
    ensures
        i <= digits_end(s, i) <= s.len(),
        forall|k: int| i <= k < digits_end(s, i) ==> is_ascii_digit(#[trigger] s[k]),
        digits_end(s, i) < s.len() ==> !is_ascii_digit(s[digits_end(s, i)]),
    decreases s.len() - i,
{
    if i < s.len() && is_ascii_digit(s[i]) {
        lemma_digits_end(s, i + 1);
    }
}

/// Decimal value of a digit sequence (unbounded).
pub open spec fn digits_value(d: Seq<char>) -> nat
    decreases d.len(),
{
    if d.len() == 0 {
        0
    } else {
        digits_value(d.drop_last()) * 10 + ((d.last() as nat) - ('0' as nat)) as nat
    }
}

/// Decimal value of a digit sequence, saturated at `u64::MAX`.
pub open spec fn saturating_value(d: Seq<char>) -> u64 {
    if digits_value(d) >= u64::MAX {
        u64::MAX
    } else {
        digits_value(d) as u64
    }
}

/// The character at `i` ends an integer: end of text, or neither an ASCII
/// alphanumeric nor `_` nor `.`.
pub open spec fn integer_boundary(s: Seq<char>, i: int) -> bool {
    i == s.len() || (!is_ascii_alnum(s[i]) && s[i] != '_' && s[i] != '.')
}

/// The integer argument that follows a word ending at `i`: at least one
/// whitespace, then digits, then an integer boundary.
pub open spec fn following_integer(s: Seq<char>, i: int) -> Option<u64> {
    if !(0 <= i < s.len() && is_ascii_ws(s[i])) {
        None
    } else {
        let start = ws_end(s, i);
        let end = digits_end(s, start);
        if end == start || !integer_boundary(s, end) {
            None
        } else {
            Some(saturating_value(s.subrange(start, end)))
        }
    }
}

pub open spec fn max_hint(old: Option<u64>, v: u64) -> Option<u64> {
    match old {
        None => Some(v),
        Some(o) => Some(if o >= v { o } else { v }),
    }
}

pub open spec fn timeout_word() -> Seq<char> {
    seq!['t', 'i', 'm', 'e', 'o', 'u', 't']
}

pub open spec fn sleep_word() -> Seq<char> {
    seq!['s', 'l', 'e', 'e', 'p']
}

/// Index of the first line feed at or after `i`, or the text length.
pub open spec fn line_end(s: Seq<char>, i: int) -> int
    decreases s.len() - i,
{
    if i < 0 || i >= s.len() {
        i
    } else if s[i] == '\n' {
        i
    } else {
        line_end(s, i + 1)
    }
}

pub proof fn lemma_line_end(s: Seq<char>, i: int)
    requires
        0 <= i <= s.len(),
    ensures
        i <= line_end(s, i) <= s.len(),
        line_end(s, i) < s.len() ==> s[line_end(s, i)] == '\n',
        forall|k: int| i <= k < line_end(s, i) ==> s[k] != '\n',
    decreases s.len() - i,
{
    if i < s.len() && s[i] != '\n' {
        lemma_line_end(s, i + 1);
    }
}

/// The command-position scanner from index `i` with the running maxima.
/// `None` when the scan reaches an unquoted form feed in a position where
/// no rule consumes it: there the scanner makes no progress and never
/// returns.
pub open spec fn scan(s: Seq<char>, i: int, cmd: bool, t: Option<u64>, sl: Option<u64>) -> Option<
    (Option<u64>, Option<u64>),
>
    decreases s.len() - i,
{
    if i < 0 || i >= s.len() {
        Some((t, sl))
    } else {
        let c = s[i];
        if c == ' ' || c == '\t' || c == '\r' {
            scan(s, i + 1, cmd, t, sl)
        } else if c == '\n' || c == ';' || c == '|' || c == '&' || c == '(' || c == '{' {
            scan(s, i + 1, true, t, sl)
        } else if c == ')' || c == '}' {
            scan(s, i + 1, false, t, sl)
        } else if c == '#' && cmd {
            let j = line_end(s, i);
            if j <= i || j > s.len() {
                None
            } else {
                scan(s, j, cmd, t, sl)
            }
        } else if c == '\'' || c == '"' {
            let j = skip_quoted_spec(s, i, c);
            if j <= i || j > s.len() {
                None
            } else {
                scan(s, j, false, t, sl)
            }
        } else {
            let j = word_end(s, i);
            if j <= i || j > s.len() {
                // An unquoted form feed: the hint scan makes no progress here.
                None
            } else if !cmd {
                scan(s, j, false, t, sl)
            } else {
                let word = s.subrange(i, j);
                let hint = following_integer(s, j);
                let t2 = if word == timeout_word() && hint is Some {
                    max_hint(t, hint->0)
                } else {
                    t
                };
                let sl2 = if word == sleep_word() && hint is Some {
                    max_hint(sl, hint->0)
                } else {
                    sl
                };
                scan(s, j, false, t2, sl2)
            }
        }
    }
}

/// The `(timeout, sleep)` hints of a whole command, when the scan ends.
pub open spec fn command_hints_spec(s: Seq<char>) -> Option<(Option<u64>, Option<u64>)> {
    scan(s, 0, true, None, None)
}

/// The legacy `timeout N; rest` prefix: `N` and the index where `rest`
/// starts. `N` must be positive.
pub open spec fn legacy_prefix(s: Seq<char>) -> Option<(u64, int)> {
    if s.len() < 7 || s.subrange(0, 7) != timeout_word() {
        None
    } else {
        let a = ws_end(s, 7);
        if a == 7 {
            None
        } else {
            let b = digits_end(s, a);
            if b == a {
                None
            } else {
                let raw = saturating_value(s.subrange(a, b));
                let c = ws_end(s, b);
                if raw == 0 || !(c < s.len() && s[c] == ';') {
                    None
                } else {
                    Some((raw, c + 1))
                }
            }
        }
    }
}

/// The text has a deadline: either the legacy prefix applies, or the hint
/// scan ends.
pub open spec fn resolvable(s: Seq<char>) -> bool {
    legacy_prefix(s) is Some || command_hints_spec(s) is Some
}

/// The resolved `(command, timeout, display)` for command text `s`.
pub open spec fn resolve_spec(s: Seq<char>, dt: u64, dd: u64, legacy_min: u64) -> (
    Seq<char>,
    u64,
    u64,
) {
    match legacy_prefix(s) {
        Some((raw, rest)) => {
            let secs = clamp(raw, legacy_min, MAX_TIMEOUT_SECS);
            (s.subrange(rest, s.len() as int), secs, secs)
        },
        None => {
            let (th, sh) = command_hints_spec(s)->0;
            match th {
                Some(raw) => {
                    let secs = clamp(raw, MIN_TIMEOUT_SECS, MAX_TIMEOUT_SECS);
                    (s, secs, secs)
                },
                None => match sh {
                    Some(raw) => {
                        let secs = (SLEEP_PADDING_SECS + clamp(
                            raw,
                            MIN_TIMEOUT_SECS,
                            MAX_TIMEOUT_SECS,
                        )) as u64;
                        (s, secs, secs)
                    },
                    None => (s, dt, dd),
                },
            }
        },
    }
}


/// Every resolved deadline is bounded: the legacy prefix yields a deadline
/// in `[legacy floor, 600]` and runs only the text after the prefix;
/// otherwise the command text is kept verbatim and the deadline is either
/// the given defaults or a hint-derived value in `[30, 720]` shown as is.
pub proof fn resolved_deadline_is_bounded(s: Seq<char>, dt: u64, dd: u64, legacy_min: u64)
    requires
        resolvable(s),
        legacy_min <= MAX_TIMEOUT_SECS,
    ensures
        ({
            let (c, t, d) = resolve_spec(s, dt, dd, legacy_min);
            &&& legacy_prefix(s) matches Some((_, rest)) ==> legacy_min <= t <= MAX_TIMEOUT_SECS && d == t
                && 0 < rest <= s.len() && c == s.subrange(rest, s.len() as int)
            &&& legacy_prefix(s) is None ==> c == s && ((t == dt && d == dd) || (MIN_TIMEOUT_SECS <= t
                <= MAX_TIMEOUT_SECS + SLEEP_PADDING_SECS && d == t))
        }),
{
    if let Some((raw, rest)) = legacy_prefix(s) {
        lemma_ws_end(s, 7);
        lemma_digits_end(s, ws_end(s, 7));
        lemma_ws_end(s, digits_end(s, ws_end(s, 7)));
    }
}

/// An explicit command-position `timeout N` decides the deadline on its
/// own: a `sleep` hint beside it changes nothing.
pub proof fn explicit_timeout_ignores_sleep(s: Seq<char>, dt: u64, dd: u64, legacy_min: u64)
    requires
        legacy_prefix(s) is None,
        command_hints_spec(s) matches Some((Some(_), _)),
    ensures
        ({
            let (th, sh) = command_hints_spec(s)->0;
            resolve_spec(s, dt, dd, legacy_min) == (s, clamp(th->0, MIN_TIMEOUT_SECS, MAX_TIMEOUT_SECS),
                clamp(th->0, MIN_TIMEOUT_SECS, MAX_TIMEOUT_SECS))
        }),
{
}

// ---------------------------------------------------------------------------
// Implementation
// ---------------------------------------------------------------------------

proof fn lemma_digits_value_step(d: Seq<char>, c: char)
    ensures
        digits_value(d.push(c)) == digits_value(d) * 10 + ((c as nat) - ('0' as nat)) as nat,
{
    assert(d.push(c).drop_last() =~= d);
}

/// Saturating decimal value of `v[start..end]` (all ASCII digits).
fn parse_u64_saturating(v: &Vec<char>, start: usize, end: usize) -> (r: u64)
    requires
        start <= end <= v@.len(),
        forall|k: int| start <= k < end ==> is_ascii_digit(#[trigger] v@[k]),
    ensures
        r == saturating_value(v@.subrange(start as int, end as int)),
{
    let mut value: u64 = 0;
    let mut i = start;
    assert(v@.subrange(start as int, start as int) =~= Seq::<char>::empty());
    while i < end
        invariant
            start <= i <= end <= v@.len(),
            forall|k: int| start <= k < end ==> is_ascii_digit(#[trigger] v@[k]),
            value == saturating_value(v@.subrange(start as int, i as int)),
        decreases end - i,
    {
        let c = v[i];
        let d: u64 = (c as u64) - ('0' as u64);
        let ghost p = v@.subrange(start as int, i as int);
        assert(is_ascii_digit(v@[i as int]));
        assert(v@.subrange(start as int, i + 1) =~= p.push(c));
        proof {
            lemma_digits_value_step(p, c);
        }
        let next = if value > (u64::MAX - d) / 10 {
            u64::MAX
        } else {
            value * 10 + d
        };
        proof {
            let dv = digits_value(p);
            let m = u64::MAX as int;
            assert(d <= 9);
            assert(value > (m - d) / 10 <==> value * 10 + d > m) by (nonlinear_arith)
                requires
                    0 <= d <= 9,
                    0 <= value,
                    m > 9,
            ;
            if dv >= u64::MAX {
                assert(value == u64::MAX);
                assert(dv * 10 + d >= m) by (nonlinear_arith)
                    requires
                        dv >= m,
                        d >= 0,
                ;
            } else {
                assert(value == dv);
            }
        }
        value = next;
        i += 1;
    }
    value
}

fn has_integer_boundary(v: &Vec<char>, i: usize) -> (b: bool)
    requires
        i <= v@.len(),
    ensures
        b == integer_boundary(v@, i as int),
{
    i == v.len() || (!ascii_alnum(v[i]) && v[i] != '_' && v[i] != '.')
}

fn skip_ws(v: &Vec<char>, i: usize) -> (j: usize)
    requires
        i <= v@.len(),
    ensures
        j == ws_end(v@, i as int),
{
    let mut j = i;
    while j < v.len() && ascii_ws(v[j])
        invariant
            i <= j <= v@.len(),
            ws_end(v@, i as int) == ws_end(v@, j as int),
        decreases v.len() - j,
    {
        j += 1;
    }
    j
}

fn skip_digits(v: &Vec<char>, i: usize) -> (j: usize)
    requires
        i <= v@.len(),
    ensures
        j == digits_end(v@, i as int),
{
    let mut j = i;
    while j < v.len() && ascii_digit(v[j])
        invariant
            i <= j <= v@.len(),
            digits_end(v@, i as int) == digits_end(v@, j as int),
        decreases v.len() - j,
    {
        j += 1;
    }
    j
}

fn parse_following_integer(v: &Vec<char>, cursor: usize) -> (r: Option<u64>)
    requires
        cursor <= v@.len(),
    ensures
        r == following_integer(v@, cursor as int),
{
    if !(cursor < v.len() && ascii_ws(v[cursor])) {
        return None;
    }
    let start = skip_ws(v, cursor);
    proof {
        lemma_ws_end(v@, cursor as int);
    }
    let end = skip_digits(v, start);
    proof {
        lemma_digits_end(v@, start as int);
    }
    if end == start || !has_integer_boundary(v, end) {
        return None;
    }
    Some(parse_u64_saturating(v, start, end))
}

fn skip_quoted(v: &Vec<char>, cursor: usize, quote: char) -> (j: usize)
    requires
        cursor < v@.len(),
    ensures
        j == skip_quoted_spec(v@, cursor as int, quote),
        cursor < j <= v@.len(),
{
    let n = v.len();
    let mut i = cursor + 1;
    proof {
        lemma_quoted_end_bounds(v@, i as int, quote);
    }
    while i < v.len()
        invariant
            cursor < i <= v@.len(),
            quoted_end(v@, i as int, quote) == skip_quoted_spec(v@, cursor as int, quote),
        decreases v.len() - i,
    {
        if v[i] == quote {
            return i + 1;
        }
        if quote == '"' && v[i] == '\\' && i + 1 < v.len() {
            i += 2;
        } else {
            i += 1;
        }
    }
    i
}

fn word_delim(c: char) -> (b: bool)
    ensures
        b == is_word_delim(c),
{
    ascii_ws(c) || c == ';' || c == '|' || c == '&' || c == '(' || c == ')' || c == '{' || c == '}'
}

fn skip_word(v: &Vec<char>, cursor: usize) -> (j: usize)
    requires
        cursor <= v@.len(),
    ensures
        j == word_end(v@, cursor as int),
{
    let mut i = cursor;
    proof {
        lemma_word_end_bounds(v@, i as int);
    }
    while i < v.len() && !word_delim(v[i])
        invariant
            cursor <= i <= v@.len(),
            word_end(v@, i as int) == word_end(v@, cursor as int),
        decreases v.len() - i,
    {
        let c = v[i];
        if c == '\\' && i + 1 < v.len() {
            i += 2;
        } else if c == '\'' || c == '"' {
            i = skip_quoted(v, i, c);
        } else {
            i += 1;
        }
    }
    i
}

fn max_opt(old: Option<u64>, v: u64) -> (r: Option<u64>)
    ensures
        r == max_hint(old, v),
{
    match old {
        None => Some(v),
        Some(o) => Some(if o >= v { o } else { v }),
    }
}

/// Run the command-position hint scanner; `None` exactly when the scan
/// would not end (see [`scan`]).
pub fn scan_hints(v: &Vec<char>) -> (r: Option<(Option<u64>, Option<u64>)>)
    ensures
        r == command_hints_spec(v@),
{
    let timeout_w: [char; 7] = ['t', 'i', 'm', 'e', 'o', 'u', 't'];
    let sleep_w: [char; 5] = ['s', 'l', 'e', 'e', 'p'];
    assert(timeout_w@ =~= timeout_word());
    assert(sleep_w@ =~= sleep_word());
    let mut timeout_max: Option<u64> = None;
    let mut sleep_max: Option<u64> = None;
    let mut cursor: usize = 0;
    let mut command_position = true;
    while cursor < v.len()
        invariant
            cursor <= v@.len(),
            timeout_w@ == timeout_word(),
            sleep_w@ == sleep_word(),
            scan(v@, cursor as int, command_position, timeout_max, sleep_max)
                == command_hints_spec(v@),
        decreases v.len() - cursor,
    {
        let c = v[cursor];
        if c == ' ' || c == '\t' || c == '\r' {
            cursor += 1;
        } else if c == '\n' || c == ';' || c == '|' || c == '&' || c == '(' || c == '{' {
            command_position = true;
            cursor += 1;
        } else if c == ')' || c == '}' {
            command_position = false;
            cursor += 1;
        } else if c == '#' && command_position {
            let mut j = cursor;
            proof {
                lemma_line_end(v@, j as int);
            }
            while j < v.len() && v[j] != '\n'
                invariant
                    cursor <= j <= v@.len(),
                    line_end(v@, j as int) == line_end(v@, cursor as int),
                decreases v.len() - j,
            {
                j += 1;
            }
            proof {
                lemma_line_end(v@, cursor as int);
            }
            cursor = j;
        } else if c == '\'' || c == '"' {
            cursor = skip_quoted(v, cursor, c);
            command_position = false;
        } else {
            let start = cursor;
            let end = skip_word(v, cursor);
            proof {
                lemma_word_end_bounds(v@, cursor as int);
            }
            if end <= start {
                return None;
            }
            cursor = end;
            if command_position {
                let hint = parse_following_integer(v, end);
                if range_eq(v, start, end, &timeout_w) {
                    if let Some(value) = hint {
                        timeout_max = max_opt(timeout_max, value);
                    }
                } else if range_eq(v, start, end, &sleep_w) {
                    if let Some(value) = hint {
                        sleep_max = max_opt(sleep_max, value);
                    }
                }
                command_position = false;
            }
        }
    }
    Some((timeout_max, sleep_max))
}

/// The `(timeout, sleep)` maxima of the command-position hints.
pub fn command_hints(command: &str) -> (r: (Option<u64>, Option<u64>))
    requires
        command_hints_spec(command@) is Some,
    ensures
        r == command_hints_spec(command@)->0,
{
    let v = chars_of(command);
    scan_hints(&v).unwrap()
}

fn legacy_prefix_of(v: &Vec<char>) -> (r: Option<(u64, usize)>)
    ensures
        match r {
            None => legacy_prefix(v@) is None,
            Some((raw, rest)) => legacy_prefix(v@) == Some((raw, rest as int)),
        },
{
    let timeout_w: [char; 7] = ['t', 'i', 'm', 'e', 'o', 'u', 't'];
    assert(timeout_w@ =~= timeout_word());
    if v.len() < 7 || !range_eq(v, 0, 7, &timeout_w) {
        return None;
    }
    let a = skip_ws(v, 7);
    if a == 7 {
        return None;
    }
    proof {
        lemma_ws_end(v@, 7);
    }
    let b = skip_digits(v, a);
    if b == a {
        return None;
    }
    proof {
        lemma_digits_end(v@, a as int);
    }
    let raw = parse_u64_saturating(v, a, b);
    let c = skip_ws(v, b);
    proof {
        lemma_ws_end(v@, b as int);
    }
    if raw == 0 || !(c < v.len() && v[c] == ';') {
        return None;
    }
    Some((raw, c + 1))
}

/// Parse the historical silent override prefix `timeout N; command`:
/// `N` and the command text after the `;`.
pub fn parse_legacy_prefix(command: &str) -> (r: Option<(u64, String)>)
    ensures
        match legacy_prefix(command@) {
            None => r is None,
            Some((raw, rest)) => match r {
                Some((n, text)) => n == raw && text@ == command@.subrange(rest, command@.len() as int),
                None => false,
            },
        },
{
    let v = chars_of(command);
    match legacy_prefix_of(&v) {
        None => None,
        Some((raw, rest)) => {
            proof {
                lemma_ws_end(v@, 7);
            }
            Some((raw, string_from_range(&v, rest, v.len())))
        },
    }
}

fn clamp_u64(v: u64, lo: u64, hi: u64) -> (r: u64)
    requires
        lo <= hi,
    ensures
        r == clamp(v, lo, hi),
        lo <= r <= hi,
{
    if v < lo {
        lo
    } else if v > hi {
        hi
    } else {
        v
    }
}

/// [`resolve`] with an explicit floor for the legacy prefix (the production
/// floor is [`LEGACY_PROD_MIN_TIMEOUT_SECS`]).
pub fn resolve_with_legacy_floor(
    command: &str,
    default_timeout_secs: u64,
    default_display_secs: u64,
    legacy_min_secs: u64,
) -> (r: ResolvedTimeout)
    requires
        legacy_min_secs <= MAX_TIMEOUT_SECS,
        resolvable(command@),
    ensures
        (r.command@, r.timeout_secs, r.display_secs) == resolve_spec(
            command@,
            default_timeout_secs,
            default_display_secs,
            legacy_min_secs,
        ),
{
    let v = chars_of(command);
    if let Some((raw, rest)) = legacy_prefix_of(&v) {
        proof {
            lemma_ws_end(v@, 7);
        }
        let secs = clamp_u64(raw, legacy_min_secs, MAX_TIMEOUT_SECS);
        return ResolvedTimeout {
            command: string_from_range(&v, rest, v.len()),
            timeout_secs: secs,
            display_secs: secs,
        };
    }
    let (timeout_hint, sleep_hint) = scan_hints(&v).unwrap();
    if let Some(raw) = timeout_hint {
        let secs = clamp_u64(raw, MIN_TIMEOUT_SECS, MAX_TIMEOUT_SECS);
        return ResolvedTimeout { command: string_from_chars(&v), timeout_secs: secs, display_secs: secs };
    }
    if let Some(raw) = sleep_hint {
        let secs = SLEEP_PADDING_SECS + clamp_u64(raw, MIN_TIMEOUT_SECS, MAX_TIMEOUT_SECS);
        return ResolvedTimeout { command: string_from_chars(&v), timeout_secs: secs, display_secs: secs };
    }
    ResolvedTimeout {
        command: string_from_chars(&v),
        timeout_secs: default_timeout_secs,
        display_secs: default_display_secs,
    }
}

/// Resolve the foreground deadline of a bash command. The legacy
/// `timeout N; command` prefix is stripped and clamped to
/// `[120, 600]`; otherwise the command text is kept, and the largest
/// command-position `timeout N` (clamped to `[30, 600]`) wins over the
/// largest `sleep N` (clamped to `[30, 600]`, plus 120 s of padding), which
/// wins over the defaults.
pub fn resolve(command: &str, default_timeout_secs: u64, default_display_secs: u64) -> (r:
    ResolvedTimeout)
    requires
        resolvable(command@),
    ensures
        (r.command@, r.timeout_secs, r.display_secs) == resolve_spec(
            command@,
            default_timeout_secs,
            default_display_secs,
            LEGACY_PROD_MIN_TIMEOUT_SECS,
        ),
{
    resolve_with_legacy_floor(
        command,
        default_timeout_secs,
        default_display_secs,
        LEGACY_PROD_MIN_TIMEOUT_SECS,
    )
}

/// [`resolve`] for any command text: `None` exactly on the text on which
/// the hint scanner would never end (an unquoted form feed it reaches).
pub fn try_resolve(command: &str, default_timeout_secs: u64, default_display_secs: u64) -> (r:
    Option<ResolvedTimeout>)
    ensures
        r is None <==> !resolvable(command@),
        r matches Some(res) ==> (res.command@, res.timeout_secs, res.display_secs) == resolve_spec(
            command@,
            default_timeout_secs,
            default_display_secs,
            LEGACY_PROD_MIN_TIMEOUT_SECS,
        ),
{
    let v = chars_of(command);
    let ok = legacy_prefix_of(&v).is_some() || scan_hints(&v).is_some();
    if ok {
        Some(resolve(command, default_timeout_secs, default_display_secs))
    } else {
        None
    }
}

} // verus!
