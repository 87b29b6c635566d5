//! Character-sequence helpers shared by the session modules.

use vstd::prelude::*;

verus! {

/// ASCII whitespace as `u8::is_ascii_whitespace` defines it: space, tab,
/// line feed, form feed and carriage return.
pub open spec fn is_ascii_ws(c: char) -> bool {
    c == ' ' || c == '\t' || c == '\n' || c == '\x0C' || c == '\r'
}

pub open spec fn is_ascii_digit(c: char) -> bool {
    '0' <= c && c <= '9'
}

pub open spec fn is_ascii_alpha(c: char) -> bool {
    ('a' <= c && c <= 'z') || ('A' <= c && c <= 'Z')
}

pub open spec fn is_ascii_alnum(c: char) -> bool {
    is_ascii_digit(c) || is_ascii_alpha(c)
}

pub fn ascii_ws(c: char) -> (b: bool)
    ensures
        b == is_ascii_ws(c),
{
    c == ' ' || c == '\t' || c == '\n' || c == '\x0C' || c == '\r'
}

pub fn ascii_digit(c: char) -> (b: bool)
    ensures
        b == is_ascii_digit(c),
{
    '0' <= c && c <= '9'
}

pub fn ascii_alpha(c: char) -> (b: bool)
    ensures
        b == is_ascii_alpha(c),
{
    ('a' <= c && c <= 'z') || ('A' <= c && c <= 'Z')
}

pub fn ascii_alnum(c: char) -> (b: bool)
    ensures
        b == is_ascii_alnum(c),
{
    ascii_digit(c) || ascii_alpha(c)
}

/// Copy the characters of `s` into a vector.
pub fn chars_of(s: &str) -> (v: Vec<char>)
    ensures
        v@ == s@,
{
    let mut v: Vec<char> = Vec::new();
    for c in it: s.chars()
        invariant
            v@ == it.seq().take(it.index() as int),
            it.seq() == s@,
    {
        v.push(c);
    }
    v
}

/// Append one character to a `String` (`String::push`).
#[verifier::external_body]
pub(crate) fn push_char(s: &mut String, c: char)
    ensures
        final(s)@ == old(s)@.push(c),
{
    s.push(c);
}

/// Append a string slice to a `String`.
pub(crate) fn push_str(s: &mut String, t: &str)
    ensures
        final(s)@ == old(s)@ + t@,
{
    s.append(t);
}

/// Build a `String` from the characters `v[start..end]`.
pub fn string_from_range(v: &Vec<char>, start: usize, end: usize) -> (s: String)
    requires
        start <= end <= v@.len(),
    ensures
        s@ == v@.subrange(start as int, end as int),
{
    let mut s = String::new();
    let mut i = start;
    while i < end
        invariant
            start <= i <= end <= v@.len(),
            s@ == v@.subrange(start as int, i as int),
        decreases end - i,
    {
        push_char(&mut s, v[i]);
        i += 1;
    }
    s
}

/// Build a `String` holding exactly the characters of `v`.
pub fn string_from_chars(v: &Vec<char>) -> (s: String)
    ensures
        s@ == v@,
{
    let s = string_from_range(v, 0, v.len());
    assert(v@.subrange(0, v@.len() as int) =~= v@);
    s
}

/// Append the characters `v[start..end]` to `out`.
pub fn extend_from_range(out: &mut Vec<char>, v: &Vec<char>, start: usize, end: usize)
    requires
        start <= end <= v@.len(),
    ensures
        final(out)@ == old(out)@ + v@.subrange(start as int, end as int),
{
    let ghost orig = out@;
    let mut i = start;
    while i < end
        invariant
            start <= i <= end <= v@.len(),
            out@ == orig + v@.subrange(start as int, i as int),
        decreases end - i,
    {
        out.push(v[i]);
        i += 1;
        assert(v@.subrange(start as int, i as int) =~= v@.subrange(start as int, i - 1) + seq![v@[i - 1]]);
    }
}

/// True when `v[start..end]` equals `w`.
pub fn range_eq(v: &Vec<char>, start: usize, end: usize, w: &[char]) -> (b: bool)
    requires
        start <= end <= v@.len(),
    ensures
        b == (v@.subrange(start as int, end as int) == w@),
{
    if end - start != w.len() {
        return false;
    }
    let mut i: usize = 0;
    while i < w.len()
        invariant
            start <= end <= v@.len(),
            end - start == w@.len(),
            i <= w@.len(),
            forall|k: int| 0 <= k < i ==> v@[start + k] == w@[k],
        decreases w.len() - i,
    {
        if v[start + i] != w[i] {
            assert(v@.subrange(start as int, end as int)[i as int] != w@[i as int]);
            return false;
        }
        i += 1;
    }
    assert(v@.subrange(start as int, end as int) =~= w@);
    true
}


/// `char::is_whitespace`: the Unicode `White_Space` property.
pub open spec fn is_unicode_ws(c: char) -> bool {
    ('\u{9}' <= c && c <= '\u{d}') || c == ' ' || c == '\u{85}' || c == '\u{a0}'
        || c == '\u{1680}' || ('\u{2000}' <= c && c <= '\u{200a}') || c == '\u{2028}'
        || c == '\u{2029}' || c == '\u{202f}' || c == '\u{205f}' || c == '\u{3000}'
}

pub fn unicode_ws(c: char) -> (b: bool)
    ensures
        b == is_unicode_ws(c),
{
    ('\u{9}' <= c && c <= '\u{d}') || c == ' ' || c == '\u{85}' || c == '\u{a0}'
        || c == '\u{1680}' || ('\u{2000}' <= c && c <= '\u{200a}') || c == '\u{2028}'
        || c == '\u{2029}' || c == '\u{202f}' || c == '\u{205f}' || c == '\u{3000}'
}

/// Start index of `s.trim()` (`str::trim` strips Unicode whitespace).
pub open spec fn trim_start_index(s: Seq<char>) -> int
    decreases s.len(),
{
    if s.len() == 0 {
        0
    } else if is_unicode_ws(s[0]) {
        1 + trim_start_index(s.drop_first())
    } else {
        0
    }
}

/// End index of `s.trim_end()`.
pub open spec fn trim_end_index(s: Seq<char>) -> int
    decreases s.len(),
{
    if s.len() == 0 {
        0
    } else if is_unicode_ws(s.last()) {
        trim_end_index(s.drop_last())
    } else {
        s.len() as int
    }
}

/// `s.trim()`.
pub open spec fn trim(s: Seq<char>) -> Seq<char> {
    let a = trim_start_index(s);
    let b = trim_end_index(s);
    if a >= b {
        Seq::empty()
    } else {
        s.subrange(a, b)
    }
}

/// `s.trim_end()`.
pub open spec fn trim_end(s: Seq<char>) -> Seq<char> {
    s.subrange(0, trim_end_index(s))
}

pub proof fn lemma_trim_start_index(s: Seq<char>)
    ensures
        0 <= trim_start_index(s) <= s.len(),
        forall|k: int| 0 <= k < trim_start_index(s) ==> is_unicode_ws(#[trigger] s[k]),
        trim_start_index(s) < s.len() ==> !is_unicode_ws(s[trim_start_index(s)]),
    decreases s.len(),
{
    if s.len() > 0 && is_unicode_ws(s[0]) {
        lemma_trim_start_index(s.drop_first());
        assert forall|k: int| 0 <= k < trim_start_index(s) implies is_unicode_ws(#[trigger] s[k]) by {
            if k > 0 {
                assert(s[k] == s.drop_first()[k - 1]);
            }
        }
    }
}

pub proof fn lemma_trim_end_index(s: Seq<char>)
    ensures
        0 <= trim_end_index(s) <= s.len(),
        forall|k: int| trim_end_index(s) <= k < s.len() ==> is_unicode_ws(#[trigger] s[k]),
        trim_end_index(s) > 0 ==> !is_unicode_ws(s[trim_end_index(s) - 1]),
    decreases s.len(),
{
    if s.len() > 0 && is_unicode_ws(s.last()) {
        lemma_trim_end_index(s.drop_last());
        assert forall|k: int| trim_end_index(s) <= k < s.len() implies is_unicode_ws(#[trigger] s[k]) by {
            if k < s.len() - 1 {
                assert(s[k] == s.drop_last()[k]);
            }
        }
    }
}

/// The bounds `[a, b)` of `v[start..end].trim()` within `v`.
pub fn trim_range(v: &Vec<char>, start: usize, end: usize) -> (r: (usize, usize))
    requires
        start <= end <= v@.len(),
    ensures
        start <= r.0 <= r.1 <= end,
        v@.subrange(r.0 as int, r.1 as int) == trim(v@.subrange(start as int, end as int)),
{
    let ghost s = v@.subrange(start as int, end as int);
    let mut a = start;
    assert(s.subrange(0, s.len() as int) =~= s);
    while a < end && unicode_ws(v[a])
        invariant
            start <= a <= end <= v@.len(),
            s == v@.subrange(start as int, end as int),
            trim_start_index(s) == (a - start) + trim_start_index(s.subrange(a - start, s.len() as int)),
        decreases end - a,
    {
        assert(s.subrange(a - start, s.len() as int).drop_first() =~= s.subrange(a - start + 1, s.len() as int));
        a += 1;
    }
    assert(trim_start_index(s.subrange(a - start, s.len() as int)) == 0);
    let mut b = end;
    while b > start && unicode_ws(v[b - 1])
        invariant
            start <= b <= end <= v@.len(),
            s == v@.subrange(start as int, end as int),
            trim_end_index(s) == trim_end_index(s.subrange(0, b - start)),
        decreases b,
    {
        assert(s.subrange(0, b - start).drop_last() =~= s.subrange(0, b - start - 1));
        b -= 1;
    }
    assert(trim_end_index(s.subrange(0, b - start)) == b - start);
    if a >= b {
        assert(v@.subrange(a as int, a as int) =~= trim(s));
        (a, a)
    } else {
        assert(v@.subrange(a as int, b as int) =~= trim(s));
        (a, b)
    }
}

/// True when `w` occurs in `s` starting at index `i`.
pub open spec fn occurs_at(s: Seq<char>, w: Seq<char>, i: int) -> bool {
    0 <= i && i + w.len() <= s.len() && s.subrange(i, i + w.len()) == w
}

/// `s.contains(w)` for a pattern string.
pub open spec fn contains_seq(s: Seq<char>, w: Seq<char>) -> bool {
    exists|i: int| occurs_at(s, w, i)
}

/// `s.starts_with(w)`.
pub open spec fn starts_with(s: Seq<char>, w: Seq<char>) -> bool {
    w.len() <= s.len() && s.subrange(0, w.len() as int) == w
}

/// `s.ends_with(w)`.
pub open spec fn ends_with(s: Seq<char>, w: Seq<char>) -> bool {
    w.len() <= s.len() && s.subrange(s.len() - w.len(), s.len() as int) == w
}

/// True when `w` occurs in `v[start..end]`.
pub fn contains_in_range(v: &Vec<char>, start: usize, end: usize, w: &[char]) -> (b: bool)
    requires
        start <= end <= v@.len(),
    ensures
        b == contains_seq(v@.subrange(start as int, end as int), w@),
{
    let ghost s = v@.subrange(start as int, end as int);
    if w.len() > end - start {
        assert forall|i: int| !occurs_at(s, w@, i) by {}
        return false;
    }
    if w.len() == 0 {
        assert(s.subrange(0, 0) =~= w@);
        assert(occurs_at(s, w@, 0));
        return true;
    }
    let mut i = start;
    while i <= end - w.len()
        invariant
            start <= i <= end <= v@.len(),
            0 < w@.len() <= end - start,
            s == v@.subrange(start as int, end as int),
            forall|k: int| 0 <= k < i - start ==> !occurs_at(s, w@, k),
        decreases end - i,
    {
        if range_eq(v, i, i + w.len(), w) {
            assert(s.subrange(i - start, i - start + w@.len()) =~= v@.subrange(i as int, i + w@.len()));
            assert(occurs_at(s, w@, i - start));
            return true;
        }
        assert(s.subrange(i - start, i - start + w@.len()) =~= v@.subrange(i as int, i + w@.len()));
        i += 1;
    }
    assert forall|k: int| !occurs_at(s, w@, k) by {
        if 0 <= k && k + w@.len() <= s.len() {
            assert(k < i - start);
        }
    }
    false
}

/// True when `v[start..end]` begins with `w`.
pub fn starts_with_in_range(v: &Vec<char>, start: usize, end: usize, w: &[char]) -> (b: bool)
    requires
        start <= end <= v@.len(),
    ensures
        b == starts_with(v@.subrange(start as int, end as int), w@),
{
    if w.len() > end - start {
        return false;
    }
    let r = range_eq(v, start, start + w.len(), w);
    assert(v@.subrange(start as int, end as int).subrange(0, w@.len() as int) =~= v@.subrange(
        start as int,
        start + w@.len(),
    ));
    r
}

/// Character-wise equality of two strings.
pub fn str_eq(a: &str, b: &str) -> (r: bool)
    ensures
        r == (a@ == b@),
{
    let va = chars_of(a);
    let vb = chars_of(b);
    if va.len() != vb.len() {
        return false;
    }
    let r = range_eq(&va, 0, va.len(), vb.as_slice());
    assert(va@.subrange(0, va@.len() as int) =~= va@);
    r
}

// ---------------------------------------------------------------------------
// `str::lines`
// ---------------------------------------------------------------------------

/// Index of the first `'\n'` at or after `i`, or the length.
pub open spec fn next_newline(s: Seq<char>, i: int) -> int
    decreases s.len() - i,
{
    if i < 0 || i >= s.len() {
        i
    } else if s[i] == '\n' {
        i
    } else {
        next_newline(s, i + 1)
    }
}

pub proof fn lemma_next_newline(s: Seq<char>, i: int)
    requires
        0 <= i <= s.len(),
    ensures
        i <= next_newline(s, i) <= s.len(),
        next_newline(s, i) < s.len() ==> s[next_newline(s, i)] == '\n',
        forall|k: int| i <= k < next_newline(s, i) ==> s[k] != '\n',
    decreases s.len() - i,
{
    if i < s.len() && s[i] != '\n' {
        lemma_next_newline(s, i + 1);
    }
}

/// A line terminated by `'\n'` loses one trailing `'\r'`.
pub open spec fn strip_cr(line: Seq<char>) -> Seq<char> {
    if line.len() > 0 && line.last() == '\r' {
        line.drop_last()
    } else {
        line
    }
}

/// `s[i..].lines()`: split at `'\n'` (dropping a `'\r'` right before it);
/// a final line ending adds no empty line.
pub open spec fn lines_from(s: Seq<char>, i: int) -> Seq<Seq<char>>
    decreases s.len() - i,
{
    if i < 0 || i >= s.len() {
        Seq::empty()
    } else {
        let j = next_newline(s, i);
        if j >= s.len() || j < i {
            seq![s.subrange(i, s.len() as int)]
        } else {
            seq![strip_cr(s.subrange(i, j))] + lines_from(s, j + 1)
        }
    }
}

/// `s.lines()`.
pub open spec fn lines(s: Seq<char>) -> Seq<Seq<char>> {
    lines_from(s, 0)
}

/// The `[start, end)` ranges of the lines of `v`, in order.
pub fn line_ranges(v: &Vec<char>) -> (r: Vec<(usize, usize)>)
    ensures
        r@.len() == lines(v@).len(),
        forall|k: int|
            #![trigger r@[k]]
            #![trigger lines(v@)[k]]
            0 <= k < r@.len() ==> {
                &&& r@[k].0 <= r@[k].1 <= v@.len()
                &&& v@.subrange(r@[k].0 as int, r@[k].1 as int) == lines(v@)[k]
            },
{
    let mut r: Vec<(usize, usize)> = Vec::new();
    let mut i: usize = 0;
    while i < v.len()
        invariant
            i <= v@.len(),
            lines(v@) == r@.map_values(|p: (usize, usize)| v@.subrange(p.0 as int, p.1 as int))
                + lines_from(v@, i as int),
            forall|k: int| 0 <= k < r@.len() ==> (#[trigger] r@[k]).0 <= r@[k].1 <= v@.len(),
        decreases v.len() - i,
    {
        let mut j = i;
        proof {
            lemma_next_newline(v@, i as int);
        }
        while j < v.len() && v[j] != '\n'
            invariant
                i <= j <= v@.len(),
                next_newline(v@, j as int) == next_newline(v@, i as int),
            decreases v.len() - j,
        {
            j += 1;
        }
        let ghost before = r@;
        if j >= v.len() {
            r.push((i, v.len()));
            proof {
                assert(lines_from(v@, v@.len() as int) =~= Seq::<Seq<char>>::empty());
                assert(r@.map_values(|p: (usize, usize)| v@.subrange(p.0 as int, p.1 as int))
                    =~= before.map_values(|p: (usize, usize)| v@.subrange(p.0 as int, p.1 as int))
                    + seq![v@.subrange(i as int, v@.len() as int)]);
            }
            i = v.len();
        } else {
            let e = if j > i && v[j - 1] == '\r' { j - 1 } else { j };
            r.push((i, e));
            proof {
                if j > i {
                    assert(v@.subrange(i as int, e as int) == strip_cr(v@.subrange(i as int, j as int)));
                } else {
                    assert(v@.subrange(i as int, e as int) =~= Seq::<char>::empty());
                }
                assert(r@.map_values(|p: (usize, usize)| v@.subrange(p.0 as int, p.1 as int))
                    =~= before.map_values(|p: (usize, usize)| v@.subrange(p.0 as int, p.1 as int))
                    + seq![v@.subrange(i as int, e as int)]);
            }
            i = j + 1;
        }
    }
    proof {
        assert(lines_from(v@, i as int) =~= Seq::<Seq<char>>::empty());
        assert(lines(v@) =~= r@.map_values(|p: (usize, usize)| v@.subrange(p.0 as int, p.1 as int)));
        assert forall|k: int| 0 <= k < r@.len() implies v@.subrange(r@[k].0 as int, r@[k].1 as int)
            == #[trigger] lines(v@)[k] by {}
    }
    r
}


/// Index of the first `c` at or after `i`, or the length.
pub open spec fn next_char(s: Seq<char>, i: int, c: char) -> int
    decreases s.len() - i,
{
    if i < 0 || i >= s.len() {
        i
    } else if s[i] == c {
        i
    } else {
        next_char(s, i + 1, c)
    }
}

pub proof fn lemma_next_char(s: Seq<char>, i: int, c: char)
    requires
        0 <= i <= s.len(),
    ensures
        i <= next_char(s, i, c) <= s.len(),
        next_char(s, i, c) < s.len() ==> s[next_char(s, i, c)] == c,
        forall|k: int| i <= k < next_char(s, i, c) ==> s[k] != c,
    decreases s.len() - i,
{
    if i < s.len() && s[i] != c {
        lemma_next_char(s, i + 1, c);
    }
}

/// Index of the first `c` in `v[i..end]`, or `end`.
pub fn find_char(v: &Vec<char>, i: usize, end: usize, c: char) -> (j: usize)
    requires
        i <= end == v@.len(),
    ensures
        j == next_char(v@, i as int, c),
        i <= j <= end,
{
    let mut j = i;
    proof {
        lemma_next_char(v@, i as int, c);
    }
    while j < end && v[j] != c
        invariant
            i <= j <= end == v@.len(),
            next_char(v@, j as int, c) == next_char(v@, i as int, c),
        decreases end - j,
    {
        j += 1;
    }
    j
}

/// The non-empty pieces of `s[i..]` separated by `sep`
/// (`s.split(sep).filter(|p| !p.is_empty())`).
pub open spec fn pieces_from(s: Seq<char>, i: int, sep: char) -> Seq<Seq<char>>
    decreases s.len() - i,
{
    if i < 0 || i >= s.len() {
        Seq::empty()
    } else {
        let j = next_char(s, i, sep);
        let piece = s.subrange(i, if j <= s.len() { j } else { s.len() as int });
        let rest = if i <= j < s.len() {
            pieces_from(s, j + 1, sep)
        } else {
            Seq::empty()
        };
        if piece.len() == 0 {
            rest
        } else {
            seq![piece] + rest
        }
    }
}


// ---------------------------------------------------------------------------
// Decimal rendering of integers (`format!("{n}")`)
// ---------------------------------------------------------------------------

pub open spec fn digit_char(d: nat) -> char {
    if d == 0 { '0' }
    else if d == 1 { '1' }
    else if d == 2 { '2' }
    else if d == 3 { '3' }
    else if d == 4 { '4' }
    else if d == 5 { '5' }
    else if d == 6 { '6' }
    else if d == 7 { '7' }
    else if d == 8 { '8' }
    else { '9' }
}

/// The decimal digits of `n`, most significant first, without leading
/// zeros (`"0"` for zero).
pub open spec fn decimal(n: nat) -> Seq<char>
    decreases n,
{
    if n < 10 {
        seq![digit_char(n)]
    } else {
        decimal(n / 10).push(digit_char(n % 10))
    }
}

fn digit_of(d: u64) -> (c: char)
    requires
        d < 10,
    ensures
        c == digit_char(d as nat),
{
    if d == 0 { '0' }
    else if d == 1 { '1' }
    else if d == 2 { '2' }
    else if d == 3 { '3' }
    else if d == 4 { '4' }
    else if d == 5 { '5' }
    else if d == 6 { '6' }
    else if d == 7 { '7' }
    else if d == 8 { '8' }
    else { '9' }
}

/// Append the decimal rendering of `n` to `out`.
pub fn push_decimal(out: &mut String, n: u64)
    ensures
        final(out)@ == old(out)@ + decimal(n as nat),
    decreases n,
{
    if n < 10 {
        push_char(out, digit_of(n));
    } else {
        push_decimal(out, n / 10);
        push_char(out, digit_of(n % 10));
    }
}

/// The decimal rendering of `n`.
pub fn u64_to_decimal(n: u64) -> (s: String)
    ensures
        s@ == decimal(n as nat),
{
    let mut s = String::new();
    push_decimal(&mut s, n);
    s
}

} // verus!
