//! The `edit` tool's replacement: exact, non-overlapping matches of
//! `old_string`, replaced once (when it is unique) or everywhere. Reading
//! and writing the file stay with the caller.

use vstd::prelude::*;
use crate::text::{chars_of, contains_seq, decimal, occurs_at, push_str, range_eq, string_from_chars};

verus! {

broadcast use vstd::seq::group_seq_axioms;

/// The first index `j >= i` where `w` occurs in `s`; `s.len() + 1` when
/// there is none.
pub open spec fn next_match(s: Seq<char>, w: Seq<char>, i: int) -> int
    decreases s.len() + 1 - i,
{
    if i < 0 || i > s.len() {
        s.len() + 1int
    } else if occurs_at(s, w, i) {
        i
    } else {
        next_match(s, w, i + 1)
    }
}

/// Non-overlapping matches of `w` in `s` from `i`, scanning left to right.
pub open spec fn match_count(s: Seq<char>, w: Seq<char>, i: int) -> nat
    decreases s.len() + 1 - i,
{
    if w.len() == 0 || i < 0 || i > s.len() {
        0
    } else {
        let j = next_match(s, w, i);
        if j > s.len() {
            0
        } else {
            proof {
                lemma_next_match(s, w, i);
            }
            1 + match_count(s, w, j + w.len())
        }
    }
}

/// `s[i..]` with every non-overlapping match of `w` (left to right)
/// replaced by `r`.
pub open spec fn replaced_all(s: Seq<char>, w: Seq<char>, r: Seq<char>, i: int) -> Seq<char>
    decreases s.len() + 1 - i,
{
    if w.len() == 0 || i < 0 || i > s.len() {
        Seq::empty()
    } else {
        let j = next_match(s, w, i);
        if j > s.len() {
            s.subrange(i, s.len() as int)
        } else {
            proof {
                lemma_next_match(s, w, i);
            }
            s.subrange(i, j) + r + replaced_all(s, w, r, j + w.len())
        }
    }
}

/// `s` with its first match of `w` replaced by `r`.
pub open spec fn replaced_first(s: Seq<char>, w: Seq<char>, r: Seq<char>) -> Seq<char> {
    let j = next_match(s, w, 0);
    if j > s.len() {
        s
    } else {
        s.subrange(0, j) + r + s.subrange(j + w.len(), s.len() as int)
    }
}

/// The outcome of an edit: the new content and the number of replacements
/// made, or the refusal.
pub open spec fn edit_result(content: Seq<char>, old: Seq<char>, new: Seq<char>, replace_all: bool) -> Result<(Seq<char>, nat), Seq<char>> {
    let count = match_count(content, old, 0);
    if old.len() == 0 {
        Err("old_string is empty"@)
    } else if count == 0 {
        Err("old_string not found in file"@)
    } else if count > 1 && !replace_all {
        Err("old_string matches "@ + decimal(count) + " times; set replace_all=true or add context"@)
    } else if replace_all {
        Ok((replaced_all(content, old, new, 0), count))
    } else {
        Ok((replaced_first(content, old, new), 1))
    }
}

pub proof fn lemma_next_match(s: Seq<char>, w: Seq<char>, i: int)
    requires
        0 <= i <= s.len(),
    ensures
        i <= next_match(s, w, i) <= s.len() + 1,
        next_match(s, w, i) <= s.len() ==> occurs_at(s, w, next_match(s, w, i)),
        forall|k: int| i <= k < next_match(s, w, i) && k <= s.len() ==> !occurs_at(s, w, k),
    decreases s.len() + 1 - i,
{
    if !occurs_at(s, w, i) && i < s.len() {
        lemma_next_match(s, w, i + 1);
    }
    if !occurs_at(s, w, i) && i == s.len() {
        assert(next_match(s, w, i + 1) == s.len() + 1);
    }
}

/// The next match at or after `i` in `v`.
fn find_match(v: &Vec<char>, w: &Vec<char>, i: usize) -> (j: usize)
    requires
        i <= v@.len(),
        v@.len() < usize::MAX,
        w@.len() > 0,
    ensures
        j as int == next_match(v@, w@, i as int),
{
    proof {
        lemma_next_match(v@, w@, i as int);
    }
    let mut k = i;
    while k < v.len()
        invariant
            i <= k <= v@.len() < usize::MAX,
            w@.len() > 0,
            next_match(v@, w@, i as int) == next_match(v@, w@, k as int),
        decreases v.len() - k,
    {
        if w.len() <= v.len() - k && range_eq(v, k, k + w.len(), w.as_slice()) {
            assert(occurs_at(v@, w@, k as int));
            return k;
        }
        assert(!occurs_at(v@, w@, k as int));
        k += 1;
    }
    assert(!occurs_at(v@, w@, v@.len() as int));
    assert(next_match(v@, w@, k as int) == v@.len() + 1) by {
        assert(next_match(v@, w@, k + 1) == v@.len() + 1);
    }
    v.len() + 1
}

/// Apply an edit to `content`; `Err` holds the refusal.
pub fn apply_edit(content: &str, old: &str, new: &str, replace_all: bool) -> (r: Result<(String, usize), String>)
    requires
        content@.len() < usize::MAX - 1,
    ensures
        match r {
            Ok((s, n)) => edit_result(content@, old@, new@, replace_all) == Ok::<(Seq<char>, nat), Seq<char>>((s@, n as nat)),
            Err(e) => edit_result(content@, old@, new@, replace_all) == Err::<(Seq<char>, nat), Seq<char>>(e@),
        },
{
    if old.is_empty() {
        return Err("old_string is empty".to_string());
    }
    let v = chars_of(content);
    let w = chars_of(old);
    // Count and build the replace-all text in one left-to-right pass.
    let mut count: usize = 0;
    let mut all = String::new();
    let first_at: usize = find_match(&v, &w, 0);
    let mut i: usize = 0;
    proof {
        lemma_next_match(v@, w@, 0);
    }
    while i <= v.len()
        invariant
            i <= v@.len() + 1,
            v@.len() < usize::MAX - 1,
            w@.len() > 0,
            v@ == content@,
            w@ == old@,
            count <= i,
            i <= v@.len() ==> match_count(v@, w@, 0) == count + match_count(v@, w@, i as int),
            i > v@.len() ==> match_count(v@, w@, 0) == count,
            i <= v@.len() ==> replaced_all(v@, w@, new@, 0) == all@ + replaced_all(v@, w@, new@, i as int),
            i > v@.len() ==> replaced_all(v@, w@, new@, 0) == all@,
            first_at as int == next_match(v@, w@, 0),
        decreases v@.len() + 1 - i,
    {
        let j = find_match(&v, &w, i);
        if j > v.len() {
            let tail = crate::text::string_from_range(&v, i, v.len());
            push_str(&mut all, tail.as_str());
            i = v.len() + 1;
        } else {
            proof {
                lemma_next_match(v@, w@, i as int);
            }
            let piece = crate::text::string_from_range(&v, i, j);
            push_str(&mut all, piece.as_str());
            push_str(&mut all, new);
            count = count + 1;
            i = j + w.len();
        }
    }
    if count == 0 {
        return Err("old_string not found in file".to_string());
    }
    if count > 1 && !replace_all {
        let mut m = String::new();
        push_str(&mut m, "old_string matches ");
        crate::text::push_decimal(&mut m, count as u64);
        push_str(&mut m, " times; set replace_all=true or add context");
        return Err(m);
    }
    if replace_all {
        Ok((all, count))
    } else {
        proof {
            lemma_next_match(v@, w@, 0);
        }
        let j = first_at;
        let mut s = crate::text::string_from_range(&v, 0, j);
        push_str(&mut s, new);
        let rest = crate::text::string_from_range(&v, j + w.len(), v.len());
        push_str(&mut s, rest.as_str());
        Ok((s, 1))
    }
}

/// The answer after a successful edit of `path`.
pub open spec fn edit_summary_text(path: Seq<char>, count: nat, replace_all: bool) -> Seq<char> {
    "edited "@ + path + " ("@ + decimal(if replace_all { count } else { 1 }) + " replacement"@ + (if count == 1 {
        ""@
    } else {
        "s"@
    }) + ")"@
}

pub fn edit_summary(path: &str, count: usize, replace_all: bool) -> (r: String)
    ensures
        r@ == edit_summary_text(path@, count as nat, replace_all),
{
    let mut m = String::new();
    push_str(&mut m, "edited ");
    push_str(&mut m, path);
    push_str(&mut m, " (");
    crate::text::push_decimal(&mut m, if replace_all { count as u64 } else { 1 });
    push_str(&mut m, " replacement");
    push_str(&mut m, if count == 1 { "" } else { "s" });
    push_str(&mut m, ")");
    m
}

/// The `edit` tool's identity.
pub struct EditTool {}

impl EditTool {
    pub fn name(&self) -> (r: &'static str)
        ensures
            r@ == "edit"@,
    {
        "edit"
    }

    pub fn description(&self) -> (r: &'static str)
        ensures
            r@ == "Performs an exact string replacement in an existing file. old_string must match exactly once (unless replace_all). Fails if the match is not found or is ambiguous."@,
    {
        "Performs an exact string replacement in an existing file. old_string must match exactly once (unless replace_all). Fails if the match is not found or is ambiguous."
    }
}


/// The pieces joined with `sep` between each two.
pub open spec fn join_with(ps: Seq<Seq<char>>, sep: Seq<char>) -> Seq<char>
    decreases ps.len(),
{
    if ps.len() == 0 {
        Seq::empty()
    } else if ps.len() == 1 {
        ps[0]
    } else {
        ps[0] + sep + join_with(ps.drop_first(), sep)
    }
}

/// The text between the matches the scan from `i` finds.
spec fn split_at_matches(s: Seq<char>, w: Seq<char>, i: int) -> Seq<Seq<char>>
    decreases s.len() + 1 - i,
{
    if w.len() == 0 || i < 0 || i > s.len() {
        Seq::empty()
    } else {
        let j = next_match(s, w, i);
        if j > s.len() {
            seq![s.subrange(i, s.len() as int)]
        } else {
            proof {
                lemma_next_match(s, w, i);
            }
            seq![s.subrange(i, j)] + split_at_matches(s, w, j + w.len())
        }
    }
}

proof fn lemma_piece_free(s: Seq<char>, w: Seq<char>, i: int, j: int)
    requires
        w.len() > 0,
        0 <= i <= j <= s.len(),
        forall|k: int| i <= k < j ==> !occurs_at(s, w, k),
    ensures
        !contains_seq(s.subrange(i, j), w),
{
    let p = s.subrange(i, j);
    if contains_seq(p, w) {
        let q = choose|q: int| occurs_at(p, w, q);
        assert(s.subrange(i + q, i + q + w.len()) =~= p.subrange(q, q + w.len()));
        assert(occurs_at(s, w, i + q));
    }
}

proof fn lemma_split(s: Seq<char>, w: Seq<char>, r: Seq<char>, i: int)
    requires
        w.len() > 0,
        0 <= i <= s.len(),
    ensures
        split_at_matches(s, w, i).len() == match_count(s, w, i) + 1,
        join_with(split_at_matches(s, w, i), w) == s.subrange(i, s.len() as int),
        join_with(split_at_matches(s, w, i), r) == replaced_all(s, w, r, i),
        forall|k: int|
            0 <= k < split_at_matches(s, w, i).len() ==> !contains_seq(#[trigger] split_at_matches(s, w, i)[k], w),
    decreases s.len() + 1 - i,
{
    lemma_next_match(s, w, i);
    let j = next_match(s, w, i);
    let ps = split_at_matches(s, w, i);
    if j > s.len() {
        lemma_piece_free(s, w, i, s.len() as int);
    } else {
        let e = j + w.len();
        lemma_split(s, w, r, e);
        lemma_piece_free(s, w, i, j);
        let rest = split_at_matches(s, w, e);
        assert(ps =~= seq![s.subrange(i, j)] + rest);
        assert(ps.drop_first() =~= rest);
        assert(ps[0] == s.subrange(i, j));
        assert(s.subrange(i, s.len() as int) =~= s.subrange(i, j) + w + s.subrange(e, s.len() as int));
        assert forall|k: int| 0 <= k < ps.len() implies !contains_seq(#[trigger] ps[k], w) by {
            if k > 0 {
                assert(ps[k] == rest[k - 1]);
            }
        }
    }
}

/// Law: an edit keeps all text it does not match. The content splits into
/// pieces free of `old` with `old` between each two; the result is the
/// same pieces, in the same order, with `new` between each two, and there
/// are as many joins as replacements. So turning every inserted `new` back
/// into `old` gives the content again.
pub proof fn edit_keeps_unmatched_text(s: Seq<char>, w: Seq<char>, r: Seq<char>, all: bool)
    ensures
        edit_result(s, w, r, all) matches Ok((t, n)) ==> exists|ps: Seq<Seq<char>>|
            {
                &&& ps.len() == n + 1
                &&& join_with(ps, w) == s
                &&& join_with(ps, r) == t
                &&& forall|k: int| 0 <= k < ps.len() ==> !contains_seq(#[trigger] ps[k], w)
            },
{
    if w.len() > 0 && match_count(s, w, 0) > 0 {
        lemma_split(s, w, r, 0);
        assert(s.subrange(0, s.len() as int) =~= s);
        let ps = split_at_matches(s, w, 0);
        if all {
            assert(ps.len() == match_count(s, w, 0) + 1);
        } else if match_count(s, w, 0) == 1 {
            lemma_next_match(s, w, 0);
            let j = next_match(s, w, 0);
            let e = j + w.len();
            assert(j <= s.len());
            lemma_next_match(s, w, e);
            assert(match_count(s, w, e) == 0);
            if next_match(s, w, e) <= s.len() {
                assert(match_count(s, w, e) >= 1);
            }
            lemma_piece_free(s, w, 0, j);
            lemma_piece_free(s, w, e, s.len() as int);
            let qs = seq![s.subrange(0, j), s.subrange(e, s.len() as int)];
            assert(qs.drop_first() =~= seq![s.subrange(e, s.len() as int)]);
            assert(join_with(qs.drop_first(), w) == s.subrange(e, s.len() as int));
            assert(join_with(qs.drop_first(), r) == s.subrange(e, s.len() as int));
            assert(occurs_at(s, w, j));
            assert(s =~= s.subrange(0, j) + w + s.subrange(e, s.len() as int));
            assert(join_with(qs, w) =~= s);
            assert(join_with(qs, r) =~= replaced_first(s, w, r));
            assert forall|k: int| 0 <= k < qs.len() implies !contains_seq(#[trigger] qs[k], w) by {}
            assert(qs.len() == 1 + 1);
        }
    }
}


/// Law: an edit is refused as "not found" exactly when `old` does not occur
/// in the content at all.
pub proof fn not_found_means_no_occurrence(s: Seq<char>, w: Seq<char>, r: Seq<char>, all: bool)
    requires
        w.len() > 0,
    ensures
        (match_count(s, w, 0) == 0) <==> !contains_seq(s, w),
        edit_result(s, w, r, all) == Err::<(Seq<char>, nat), Seq<char>>("old_string not found in file"@)
            <==> !contains_seq(s, w),
{
    reveal_strlit("old_string not found in file");
    reveal_strlit("old_string is empty");
    lemma_next_match(s, w, 0);
    let j = next_match(s, w, 0);
    if contains_seq(s, w) {
        let k = choose|k: int| occurs_at(s, w, k);
        if j > s.len() {
            assert(k <= s.len());
            assert(!occurs_at(s, w, k));
        }
        assert(match_count(s, w, 0) >= 1);
    } else {
        if j <= s.len() {
            assert(occurs_at(s, w, j));
        }
    }
    if match_count(s, w, 0) > 0 {
        let e = edit_result(s, w, r, all);
        if match_count(s, w, 0) > 1 && !all {
            let m = "old_string matches "@ + decimal(match_count(s, w, 0)) + " times; set replace_all=true or add context"@;
            reveal_strlit("old_string matches ");
            assert(m[0] == 'o' && m[11] == 'm');
            assert("old_string not found in file"@[11] == 'n');
        }
    }
}

} // verus!
