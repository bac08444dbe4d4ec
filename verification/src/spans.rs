//! The spans that a search reports: where an occurrence begins among the
//! bytes of the text, and how many bytes it takes there.
//!
//! A search finds its occurrences in the folded text and reports them in the
//! text as it is given. Folding moves no character, so an occurrence lies in
//! the text where it lies in the folded text, and it takes as many bytes
//! there as the query has.
use vstd::prelude::*;
use vstd::utf8::encode_utf8;
use crate::fold::{folded, lemma_fold_keeps_width, utf8_width};
use crate::offsets::{
    byte_offset, lemma_byte_offset_bound, lemma_byte_offset_skip, lemma_byte_offset_step,
    lemma_same_widths,
};
use crate::scan::{lemma_starts_ascending, occurs_at, search_starts};

verus! {

/// `spans` are the spans that a scan reports of the occurrences of `query`
/// in `text`: for each occurrence, in ascending order, the byte offset at
/// which it starts in `text`, and the number of bytes that it takes there.
pub open spec fn reports(
    spans: Seq<(usize, usize)>,
    query: Seq<char>,
    text: Seq<char>,
    ignore_case: bool,
) -> bool {
    let all = search_starts(query, text, ignore_case);
    &&& spans.len() == all.len()
    &&& forall|k: int|
        0 <= k < spans.len() ==> (#[trigger] spans[k]).0 == byte_offset(text, all[k])
            && spans[k].0 + spans[k].1 == byte_offset(text, all[k] + query.len())
}

/// An occurrence takes as many bytes in the text as the query has.
pub proof fn lemma_occurrence_width(
    query: Seq<char>,
    text: Seq<char>,
    ignore_case: bool,
    i: int,
)
    requires
        occurs_at(folded(query, ignore_case), folded(text, ignore_case), i),
    ensures
        byte_offset(text, i + query.len()) == byte_offset(text, i) + encode_utf8(query).len(),
        byte_offset(text, i + query.len()) <= encode_utf8(text).len(),
        0 < encode_utf8(query).len(),
{
    let fq = folded(query, ignore_case);
    let ft = folded(text, ignore_case);
    let found = text.subrange(i, i + query.len());
    lemma_byte_offset_skip(text, i, query.len() as int);
    lemma_byte_offset_bound(text, i + query.len());
    assert forall|j: int| 0 <= j < found.len() implies utf8_width(#[trigger] found[j])
        == utf8_width(query[j]) by {
        assert(ft[i + j] == fq[j]);
        lemma_fold_keeps_width(text[i + j], ignore_case);
        lemma_fold_keeps_width(query[j], ignore_case);
    }
    lemma_same_widths(found, query);
    lemma_byte_offset_step(query, 0);
    lemma_byte_offset_bound(query, 1);
}

/// The spans that a search reports lie in the text and take as many bytes
/// as the query has, which is at least one; and each span ends before any
/// later one begins.
pub proof fn lemma_spans_apart(
    spans: Seq<(usize, usize)>,
    query: Seq<char>,
    text: Seq<char>,
    ignore_case: bool,
)
    requires
        reports(spans, query, text, ignore_case),
    ensures
        forall|k: int|
            0 <= k < spans.len() ==> {
                &&& 0 < (#[trigger] spans[k]).1
                &&& spans[k].1 == encode_utf8(query).len()
                &&& spans[k].0 + spans[k].1 <= encode_utf8(text).len()
            },
        forall|j: int, k: int|
            0 <= j < k < spans.len() ==> (#[trigger] spans[j]).0 + spans[j].1 <= (
            #[trigger] spans[k]).0,
{
    let fq = folded(query, ignore_case);
    let ft = folded(text, ignore_case);
    let all = search_starts(query, text, ignore_case);
    lemma_starts_ascending(fq, ft, 0);
    assert forall|k: int| 0 <= k < spans.len() implies 0 < (#[trigger] spans[k]).1 && spans[k].1
        == encode_utf8(query).len() && spans[k].0 + spans[k].1 <= encode_utf8(text).len() by {
        assert(occurs_at(fq, ft, all[k]));
        lemma_occurrence_width(query, text, ignore_case, all[k]);
    }
    assert forall|j: int, k: int| 0 <= j < k < spans.len() implies (#[trigger] spans[j]).0
        + spans[j].1 <= (#[trigger] spans[k]).0 by {
        assert(all[j] + query.len() <= all[k]);
        assert(occurs_at(fq, ft, all[k]));
        lemma_byte_offset_skip(text, all[j] + query.len(), all[k] - (all[j] + query.len()));
    }
}

} // verus!
