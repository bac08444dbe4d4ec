//! The mathematical model of the substring scanner, and what holds of it.
//!
//! A query *occurs* at an offset of a text when the characters of the text
//! from that offset on begin with the characters of the query. The scanner
//! walks the text from left to right and reports occurrences that do not
//! overlap: after an occurrence it resumes behind it. So of `aa` in `aaa` it
//! reports one occurrence, at offset 0.
//!
//! The scanner compares characters as they are. A search without regard to
//! case scans the folded text for the folded query.
use vstd::prelude::*;
use crate::fold::folded;

verus! {

/// `query` occurs in `text` at offset `i`, counted in characters. The empty
/// query occurs nowhere.
pub open spec fn occurs_at(query: Seq<char>, text: Seq<char>, i: int) -> bool {
    &&& 0 < query.len()
    &&& 0 <= i
    &&& i + query.len() <= text.len()
    &&& forall|j: int| 0 <= j < query.len() ==> text[i + j] == #[trigger] query[j]
}

/// `text` holds an occurrence of `query` somewhere.
pub open spec fn occurs(query: Seq<char>, text: Seq<char>) -> bool {
    exists|i: int| occurs_at(query, text, i)
}

/// The offsets that a scan reports when it starts at offset `from`: the first
/// occurrence at or behind `from`, then what a scan reports that starts behind
/// that occurrence.
pub open spec fn starts_from(query: Seq<char>, text: Seq<char>, from: int) -> Seq<int>
    decreases text.len() - from,
{
    if query.len() == 0 || from < 0 || from + query.len() > text.len() {
        Seq::empty()
    } else if occurs_at(query, text, from) {
        seq![from] + starts_from(query, text, from + query.len())
    } else {
        starts_from(query, text, from + 1)
    }
}

/// The offsets that a scan of the whole text reports, in ascending order.
pub open spec fn starts(query: Seq<char>, text: Seq<char>) -> Seq<int> {
    starts_from(query, text, 0)
}

/// The number of occurrences that a scan reports when it starts at `from`.
pub open spec fn count_from(query: Seq<char>, text: Seq<char>, from: int) -> nat {
    starts_from(query, text, from).len()
}

/// The number of occurrences that a scan of the whole text reports.
pub open spec fn occurrence_count(query: Seq<char>, text: Seq<char>) -> nat {
    starts(query, text).len()
}

/// The offsets of the occurrences that a search with the given case mode
/// reports: those of a scan of the folded text for the folded query.
pub open spec fn search_starts(query: Seq<char>, text: Seq<char>, ignore_case: bool) -> Seq<int> {
    starts(folded(query, ignore_case), folded(text, ignore_case))
}

/// A search with the given case mode finds the query in the text.
pub open spec fn search_finds(query: Seq<char>, text: Seq<char>, ignore_case: bool) -> bool {
    occurs(folded(query, ignore_case), folded(text, ignore_case))
}

/// The number of occurrences that a search with the given case mode reports.
pub open spec fn search_count(query: Seq<char>, text: Seq<char>, ignore_case: bool) -> nat {
    occurrence_count(folded(query, ignore_case), folded(text, ignore_case))
}

/// Every reported offset lies at or behind the start of the scan and is an
/// occurrence, and each occurrence ends before any later one begins.
pub proof fn lemma_starts_ascending(query: Seq<char>, text: Seq<char>, from: int)
    ensures
        forall|k: int|
            0 <= k < starts_from(query, text, from).len() ==> {
                &&& from <= #[trigger] starts_from(query, text, from)[k]
                &&& occurs_at(query, text, starts_from(query, text, from)[k])
            },
        forall|j: int, k: int|
            0 <= j < k < starts_from(query, text, from).len() ==> (#[trigger] starts_from(
                query,
                text,
                from,
            )[j]) + query.len() <= #[trigger] starts_from(query, text, from)[k],
    decreases text.len() - from,
{
    let s = starts_from(query, text, from);
    if query.len() == 0 || from < 0 || from + query.len() > text.len() {
    } else if occurs_at(query, text, from) {
        let next = from + query.len();
        let rest = starts_from(query, text, next);
        lemma_starts_ascending(query, text, next);
        assert(s == seq![from] + rest);
        assert forall|k: int| 0 <= k < s.len() implies from <= #[trigger] s[k] && occurs_at(
            query,
            text,
            s[k],
        ) by {
            if k > 0 {
                assert(s[k] == rest[k - 1]);
            }
        }
        assert forall|j: int, k: int| 0 <= j < k < s.len() implies #[trigger] s[j] + query.len()
            <= #[trigger] s[k] by {
            assert(s[k] == rest[k - 1]);
            if j > 0 {
                assert(s[j] == rest[j - 1]);
            }
        }
    } else {
        lemma_starts_ascending(query, text, from + 1);
        assert(s == starts_from(query, text, from + 1));
    }
}

/// No occurrence at or behind the start of the scan is passed over: each one
/// begins inside a reported occurrence.
pub proof fn lemma_starts_cover(query: Seq<char>, text: Seq<char>, from: int, p: int)
    requires
        0 <= from <= p,
        occurs_at(query, text, p),
    ensures
        exists|k: int|
            0 <= k < starts_from(query, text, from).len() && #[trigger] starts_from(
                query,
                text,
                from,
            )[k] <= p < starts_from(query, text, from)[k] + query.len(),
    decreases text.len() - from,
{
    let s = starts_from(query, text, from);
    if occurs_at(query, text, from) {
        let next = from + query.len();
        if p < next {
            assert(s[0] == from);
        } else {
            let rest = starts_from(query, text, next);
            lemma_starts_cover(query, text, next, p);
            let k = choose|k: int|
                0 <= k < rest.len() && #[trigger] rest[k] <= p < rest[k] + query.len();
            assert(s[k + 1] == rest[k]);
        }
    } else {
        lemma_starts_cover(query, text, from + 1, p);
    }
}

/// A scan reports nothing exactly when the text holds no occurrence at all.
pub proof fn lemma_absent_iff_no_occurrence(query: Seq<char>, text: Seq<char>)
    ensures
        occurrence_count(query, text) == 0 <==> !occurs(query, text),
{
    let s = starts(query, text);
    lemma_starts_ascending(query, text, 0);
    if s.len() > 0 {
        assert(occurs_at(query, text, s[0]));
    }
    if occurs(query, text) {
        let p = choose|p: int| occurs_at(query, text, p);
        lemma_starts_cover(query, text, 0, p);
    }
}

/// A scan that starts one character later reports no more occurrences.
pub proof fn lemma_count_later_start(query: Seq<char>, text: Seq<char>, from: int)
    requires
        0 <= from,
    ensures
        count_from(query, text, from + 1) <= count_from(query, text, from),
    decreases text.len() - from, 0int,
{
    if query.len() == 0 || from + query.len() > text.len() {
    } else if occurs_at(query, text, from) {
        lemma_count_skip(query, text, from + 1, query.len() - 1);
    }
}

/// A scan that starts later reports no more occurrences.
pub proof fn lemma_count_antitone(query: Seq<char>, text: Seq<char>, from: int, later: int)
    requires
        0 <= from <= later,
    ensures
        count_from(query, text, later) <= count_from(query, text, from),
    decreases text.len() - from, 1int, later - from,
{
    if from < later {
        if from >= text.len() {
            assert(count_from(query, text, later) == 0);
        } else {
            lemma_count_later_start(query, text, from);
            lemma_count_antitone(query, text, from + 1, later);
        }
    }
}

/// Skipping at most the length of the query loses at most one occurrence.
pub proof fn lemma_count_skip(query: Seq<char>, text: Seq<char>, from: int, skip: int)
    requires
        0 <= from,
        0 <= skip <= query.len(),
    ensures
        count_from(query, text, from) <= 1 + count_from(query, text, from + skip),
    decreases text.len() - from, 2int,
{
    if skip == 0 || query.len() == 0 || from + query.len() > text.len() {
    } else if occurs_at(query, text, from) {
        lemma_count_antitone(query, text, from + skip, from + query.len());
    } else {
        lemma_count_skip(query, text, from + 1, skip - 1);
    }
}

/// An occurrence in the text as it stands is one in the folded text.
pub proof fn lemma_occurrence_folds(query: Seq<char>, text: Seq<char>, i: int)
    requires
        occurs_at(query, text, i),
    ensures
        occurs_at(folded(query, true), folded(text, true), i),
{
    let fq = folded(query, true);
    let ft = folded(text, true);
    assert forall|j: int| 0 <= j < fq.len() implies ft[i + j] == #[trigger] fq[j] by {
        assert(text[i + j] == query[j]);
    }
}

/// From any offset on, a scan of the folded text for the folded query
/// reports at least as many occurrences as a scan of the text for the query.
pub proof fn lemma_folded_count_from(query: Seq<char>, text: Seq<char>, from: int)
    requires
        0 <= from,
    ensures
        count_from(query, text, from) <= count_from(folded(query, true), folded(text, true), from),
    decreases text.len() - from,
{
    let fq = folded(query, true);
    let ft = folded(text, true);
    if query.len() == 0 || from + query.len() > text.len() {
    } else if occurs_at(query, text, from) {
        lemma_occurrence_folds(query, text, from);
        lemma_folded_count_from(query, text, from + query.len());
    } else if occurs_at(fq, ft, from) {
        lemma_folded_count_from(query, text, from + query.len());
        lemma_count_skip(query, text, from + 1, query.len() - 1);
    } else {
        lemma_folded_count_from(query, text, from + 1);
    }
}

/// The occurrences that a search reports lie in the text, one behind the
/// other.
pub proof fn lemma_search_starts_in_text(query: Seq<char>, text: Seq<char>, ignore_case: bool)
    ensures
        forall|j: int|
            0 <= j < search_starts(query, text, ignore_case).len() ==> 0 <= (
            #[trigger] search_starts(query, text, ignore_case)[j]) <= text.len() - query.len(),
        forall|i: int, j: int|
            0 <= i < j < search_starts(query, text, ignore_case).len() ==> (
            #[trigger] search_starts(query, text, ignore_case)[i]) + query.len() <= (
            #[trigger] search_starts(query, text, ignore_case)[j]),
{
    let fq = folded(query, ignore_case);
    let ft = folded(text, ignore_case);
    lemma_starts_ascending(fq, ft, 0);
    let all = starts(fq, ft);
    assert forall|j: int| 0 <= j < all.len() implies 0 <= #[trigger] all[j] <= text.len()
        - query.len() by {
        assert(occurs_at(fq, ft, all[j]));
    }
}

/// Where the copy of the text stands when it comes to occurrence `k`: behind
/// the occurrence before it, or at the start.
pub open spec fn cursor_at(starts: Seq<int>, width: int, k: int) -> int {
    if k <= 0 {
        0
    } else {
        starts[k - 1] + width
    }
}

/// The cursor lies in the text, and the next occurrence behind it.
pub proof fn lemma_cursor_in_text(query: Seq<char>, text: Seq<char>, ignore_case: bool, k: int)
    requires
        0 <= k <= search_starts(query, text, ignore_case).len(),
    ensures
        0 <= cursor_at(search_starts(query, text, ignore_case), query.len() as int, k)
            <= text.len(),
        k < search_starts(query, text, ignore_case).len() ==> cursor_at(
            search_starts(query, text, ignore_case),
            query.len() as int,
            k,
        ) <= search_starts(query, text, ignore_case)[k] <= text.len() - query.len(),
{
    lemma_search_starts_in_text(query, text, ignore_case);
    let all = search_starts(query, text, ignore_case);
    if k > 0 {
        assert(0 <= all[k - 1] <= text.len() - query.len());
        if k < all.len() {
            assert(all[k - 1] + query.len() <= all[k]);
        }
    }
    if k < all.len() {
        assert(0 <= all[k] <= text.len() - query.len());
    }
}

/// Searching without regard to case finds at least as many occurrences as
/// searching with regard to case, for every query and every text.
pub proof fn lemma_ignoring_case_finds_no_fewer(query: Seq<char>, text: Seq<char>)
    ensures
        search_count(query, text, false) <= search_count(query, text, true),
{
    assert(folded(query, false) =~= query);
    assert(folded(text, false) =~= text);
    lemma_folded_count_from(query, text, 0);
}

/// Tells whether `query` occurs in `text` at offset `i`.
pub fn matches_at(query: &[char], text: &[char], i: usize) -> (found: bool)
    ensures
        found == occurs_at(query@, text@, i as int),
{
    let n = query.len();
    let len = text.len();
    if n == 0 || i > len || len - i < n {
        return false;
    }
    let mut j: usize = 0;
    while j < n
        invariant
            n == query@.len(),
            len == text@.len(),
            0 < n,
            i + n <= len,
            0 <= j <= n,
            forall|k: int| 0 <= k < j ==> text@[i + k] == #[trigger] query@[k],
        decreases n - j,
    {
        if text[i + j] != query[j] {
            assert(text@[i + j] != query@[j as int]);
            return false;
        }
        j += 1;
    }
    true
}

/// Scans `text` for `query` and reports the offsets of the occurrences, in
/// characters and in ascending order.
pub fn find(query: &[char], text: &[char]) -> (found: Vec<usize>)
    ensures
        found@.len() == starts(query@, text@).len(),
        forall|k: int| 0 <= k < found@.len() ==> #[trigger] found@[k] == starts(query@, text@)[k],
{
    let n = query.len();
    let len = text.len();
    let ghost all = starts(query@, text@);
    let ghost mut done: Seq<int> = Seq::empty();
    let mut found: Vec<usize> = Vec::new();
    if n == 0 || n > len {
        return found;
    }
    let mut i: usize = 0;
    assert(done + all =~= all);
    while i <= len - n
        invariant
            n == query@.len(),
            len == text@.len(),
            0 < n <= len,
            i <= len,
            done + starts_from(query@, text@, i as int) == all,
            done.len() == found@.len(),
            forall|k: int| 0 <= k < found@.len() ==> #[trigger] found@[k] == done[k],
        decreases len - i,
    {
        if matches_at(query, text, i) {
            proof {
                let behind = starts_from(query@, text@, i + n);
                assert(done.push(i as int) + behind =~= done + (seq![i as int] + behind));
                done = done.push(i as int);
            }
            found.push(i);
            i += n;
        } else {
            i += 1;
        }
    }
    assert(done =~= all);
    found
}

/// Counts the occurrences that a scan of `text` for `query` reports.
pub fn count(query: &[char], text: &[char]) -> (c: usize)
    ensures
        c == occurrence_count(query@, text@),
{
    let n = query.len();
    let len = text.len();
    if n == 0 || n > len {
        return 0;
    }
    let mut c: usize = 0;
    let mut i: usize = 0;
    while i <= len - n
        invariant
            n == query@.len(),
            len == text@.len(),
            0 < n <= len,
            i <= len,
            c <= i,
            c + starts_from(query@, text@, i as int).len() == occurrence_count(query@, text@),
        decreases len - i,
    {
        if matches_at(query, text, i) {
            c += 1;
            i += n;
        } else {
            i += 1;
        }
    }
    c
}

} // verus!
