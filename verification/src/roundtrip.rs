//! What comes back when the markers are taken out of a highlighted text.
//!
//! Highlighting adds the two markers to a text and nothing else, so the text
//! comes back when they are taken out again. Taking them out of the finished
//! string means finding them there, and a text may hold characters of its own
//! that read as a marker. Such a text comes back whole only where
//! highlighting has cut every marker of its own in two; where one is left
//! whole, it is taken out with the others and is lost.
use vstd::prelude::*;
use crate::scan::{cursor_at, lemma_cursor_in_text, lemma_search_starts_in_text, search_starts};
use crate::style::{
    begin_marker, end_marker, highlight, highlight_from, marked, marked_from, ANSIStyle,
};
use crate::text::decimal;

verus! {

/// The string `marker` stands in `s` at offset `p`.
pub open spec fn stands_at(s: Seq<char>, marker: Seq<char>, p: int) -> bool {
    &&& 0 < marker.len()
    &&& 0 <= p
    &&& p + marker.len() <= s.len()
    &&& s.subrange(p, p + marker.len()) == marker
}

/// One of the two markers stands in `s` at offset `p`.
pub open spec fn marker_at(s: Seq<char>, p: int) -> bool {
    stands_at(s, begin_marker(), p) || stands_at(s, end_marker(), p)
}

/// Neither marker stands anywhere in `s`.
pub open spec fn marker_free(s: Seq<char>) -> bool {
    forall|p: int| !marker_at(s, p)
}

/// `s` without its markers: read from left to right, every marker that is
/// met is left out and every other character is kept.
pub open spec fn strip_markers(s: Seq<char>) -> Seq<char>
    decreases s.len(),
{
    if s.len() == 0 {
        s
    } else if stands_at(s, begin_marker(), 0) {
        strip_markers(s.skip(begin_marker().len() as int))
    } else if stands_at(s, end_marker(), 0) {
        strip_markers(s.skip(end_marker().len() as int))
    } else {
        seq![s[0]] + strip_markers(s.skip(1))
    }
}

/// Highlighting puts a marker into the text at offset `c`: an occurrence
/// that a search reports begins there or ends there.
pub open spec fn cut_point(query: Seq<char>, text: Seq<char>, ignore_case: bool, c: int) -> bool {
    exists|k: int|
        0 <= k < search_starts(query, text, ignore_case).len() && (#[trigger] search_starts(
            query,
            text,
            ignore_case,
        )[k] == c || search_starts(query, text, ignore_case)[k] + query.len() == c)
}

/// Highlighting puts a marker between two of the `width` characters at `p`.
pub open spec fn cut_inside(
    query: Seq<char>,
    text: Seq<char>,
    ignore_case: bool,
    p: int,
    width: int,
) -> bool {
    exists|c: int| p < c < p + width && #[trigger] cut_point(query, text, ignore_case, c)
}

/// The string `marker` stands in the text at `p`, and highlighting leaves it
/// whole.
pub open spec fn stays_whole(
    query: Seq<char>,
    text: Seq<char>,
    ignore_case: bool,
    marker: Seq<char>,
    p: int,
) -> bool {
    stands_at(text, marker, p) && !cut_inside(query, text, ignore_case, p, marker.len() as int)
}

/// One of the two markers stands in the text at `p`, and highlighting leaves
/// it whole.
pub open spec fn whole_marker_at(
    query: Seq<char>,
    text: Seq<char>,
    ignore_case: bool,
    p: int,
) -> bool {
    ||| stays_whole(query, text, ignore_case, begin_marker(), p)
    ||| stays_whole(query, text, ignore_case, end_marker(), p)
}

/// Highlighting leaves no marker of the text's own whole.
pub open spec fn markers_cut(query: Seq<char>, text: Seq<char>, ignore_case: bool) -> bool {
    forall|p: int| !whole_marker_at(query, text, ignore_case, p)
}

/// What highlighting makes of the text from occurrence `k` on.
spec fn highlight_tail(
    query: Seq<char>,
    text: Seq<char>,
    ignore_case: bool,
    k: int,
) -> Seq<char> {
    highlight_from(
        text,
        search_starts(query, text, ignore_case),
        query.len() as int,
        k,
        cursor_at(search_starts(query, text, ignore_case), query.len() as int, k),
    )
}

/// The text from the place on where the copy stands when it comes to
/// occurrence `k`.
spec fn text_tail(
    query: Seq<char>,
    text: Seq<char>,
    ignore_case: bool,
    k: int,
) -> Seq<char> {
    text.skip(cursor_at(search_starts(query, text, ignore_case), query.len() as int, k))
}

/// One of the two markers.
spec fn is_marker(marker: Seq<char>) -> bool {
    marker == begin_marker() || marker == end_marker()
}

/// A string is empty or begins with the escape character.
spec fn escapes(y: Seq<char>) -> bool {
    y.len() == 0 || y[0] == '\x1b'
}

/// The two markers character by character. Each begins with the escape
/// character and holds no other.
pub proof fn lemma_marker_chars()
    ensures
        begin_marker() == seq!['\x1b', '[', '4', '1', 'm'],
        end_marker() == seq!['\x1b', '[', '0', 'm'],
{
    reveal_with_fuel(decimal, 2);
    assert(begin_marker() =~= seq!['\x1b', '[', '4', '1', 'm']);
    assert(end_marker() =~= seq!['\x1b', '[', '0', 'm']);
}

/// A marker that stands in `x + y` and begins in `x` lies in `x`, where `y`
/// is empty or begins with the escape character: no marker holds that
/// character behind its first.
proof fn lemma_marker_lies_in(x: Seq<char>, y: Seq<char>, marker: Seq<char>, p: int)
    requires
        is_marker(marker),
        escapes(y),
        0 <= p < x.len(),
        stands_at(x + y, marker, p),
    ensures
        p + marker.len() <= x.len(),
        stands_at(x, marker, p),
{
    lemma_marker_chars();
    let s = x + y;
    let m = marker.len() as int;
    if p + m > x.len() {
        assert(s.subrange(p, p + m)[x.len() - p] == y[0]);
    }
    assert(x.subrange(p, p + m) =~= s.subrange(p, p + m));
}

/// Stripping leaves out a marker at the front.
proof fn lemma_strip_marker(marker: Seq<char>, z: Seq<char>)
    requires
        is_marker(marker),
    ensures
        strip_markers(marker + z) == strip_markers(z),
        escapes(marker + z),
{
    lemma_marker_chars();
    let s = marker + z;
    let m = marker.len() as int;
    assert(s.subrange(0, m) =~= marker);
    assert(s.skip(m) =~= z);
    if marker == end_marker() && stands_at(s, begin_marker(), 0) {
        assert(s.subrange(0, 5)[2] == s[2]);
    }
}

/// Stripping passes over a stretch in which no marker stands, where what
/// follows the stretch is empty or begins with the escape character.
proof fn lemma_strip_plain(x: Seq<char>, y: Seq<char>)
    requires
        escapes(y),
        forall|p: int| !marker_at(x, p),
    ensures
        strip_markers(x + y) == x + strip_markers(y),
    decreases x.len(),
{
    let s = x + y;
    if x.len() == 0 {
        assert(s =~= y);
        assert(x + strip_markers(y) =~= strip_markers(y));
    } else {
        if stands_at(s, begin_marker(), 0) {
            lemma_marker_lies_in(x, y, begin_marker(), 0);
            assert(marker_at(x, 0));
        }
        if stands_at(s, end_marker(), 0) {
            lemma_marker_lies_in(x, y, end_marker(), 0);
            assert(marker_at(x, 0));
        }
        let x1 = x.skip(1);
        assert(s.skip(1) =~= x1 + y);
        assert forall|p: int| !marker_at(x1, p) by {
            assert(!marker_at(x, p + 1));
            if 0 <= p && p + begin_marker().len() <= x1.len() {
                assert(x1.subrange(p, p + begin_marker().len()) =~= x.subrange(
                    p + 1,
                    p + 1 + begin_marker().len(),
                ));
            }
            if 0 <= p && p + end_marker().len() <= x1.len() {
                assert(x1.subrange(p, p + end_marker().len()) =~= x.subrange(
                    p + 1,
                    p + 1 + end_marker().len(),
                ));
            }
        }
        lemma_strip_plain(x1, y);
        assert(seq![s[0]] + (x1 + strip_markers(y)) =~= x + strip_markers(y));
    }
}

/// Of a stretch that is followed by nothing or by the escape character,
/// stripping leaves no more than its characters.
proof fn lemma_strip_bound(x: Seq<char>, y: Seq<char>)
    requires
        escapes(y),
    ensures
        strip_markers(x + y).len() <= x.len() + strip_markers(y).len(),
    decreases x.len(),
{
    let s = x + y;
    if x.len() == 0 {
        assert(s =~= y);
    } else if stands_at(s, begin_marker(), 0) {
        let m = begin_marker().len() as int;
        lemma_marker_lies_in(x, y, begin_marker(), 0);
        assert(s.skip(m) =~= x.skip(m) + y);
        lemma_strip_bound(x.skip(m), y);
    } else if stands_at(s, end_marker(), 0) {
        let m = end_marker().len() as int;
        lemma_marker_lies_in(x, y, end_marker(), 0);
        assert(s.skip(m) =~= x.skip(m) + y);
        lemma_strip_bound(x.skip(m), y);
    } else {
        assert(s.skip(1) =~= x.skip(1) + y);
        lemma_strip_bound(x.skip(1), y);
    }
}

/// Of a stretch in which a marker stands, stripping leaves fewer than its
/// characters.
proof fn lemma_strip_loses(x: Seq<char>, y: Seq<char>, marker: Seq<char>, p: int)
    requires
        escapes(y),
        is_marker(marker),
        stands_at(x, marker, p),
    ensures
        strip_markers(x + y).len() < x.len() + strip_markers(y).len(),
    decreases x.len(),
{
    let s = x + y;
    if stands_at(s, begin_marker(), 0) {
        let m = begin_marker().len() as int;
        lemma_marker_lies_in(x, y, begin_marker(), 0);
        assert(s.skip(m) =~= x.skip(m) + y);
        lemma_strip_bound(x.skip(m), y);
    } else if stands_at(s, end_marker(), 0) {
        let m = end_marker().len() as int;
        lemma_marker_lies_in(x, y, end_marker(), 0);
        assert(s.skip(m) =~= x.skip(m) + y);
        lemma_strip_bound(x.skip(m), y);
    } else {
        let m = marker.len() as int;
        if p == 0 {
            assert(s.subrange(0, m) =~= x.subrange(0, m));
        }
        let x1 = x.skip(1);
        assert(x1.subrange(p - 1, p - 1 + m) =~= x.subrange(p, p + m));
        assert(s.skip(1) =~= x1 + y);
        lemma_strip_loses(x1, y, marker, p - 1);
    }
}

/// What highlighting makes of the text from occurrence `k` on, in its parts:
/// the stretch before the occurrence, the occurrence between the markers,
/// and what highlighting makes of the text from the next occurrence on.
proof fn lemma_highlight_tail_parts(
    query: Seq<char>,
    text: Seq<char>,
    ignore_case: bool,
    k: int,
)
    requires
        0 <= k < search_starts(query, text, ignore_case).len(),
    ensures
        ({
            let all = search_starts(query, text, ignore_case);
            let width = query.len() as int;
            let cursor = cursor_at(all, width, k);
            let gap = text.subrange(cursor, all[k]);
            let found = text.subrange(all[k], all[k] + width);
            let next = highlight_tail(query, text, ignore_case, k + 1);
            &&& 0 <= cursor <= all[k] <= all[k] + width <= text.len()
            &&& highlight_tail(query, text, ignore_case, k) == gap + (begin_marker() + (found + (
                end_marker() + next)))
            &&& text_tail(query, text, ignore_case, k) == gap + (found + text_tail(
                query,
                text,
                ignore_case,
                k + 1,
            ))
        }),
{
    lemma_cursor_in_text(query, text, ignore_case, k);
    let all = search_starts(query, text, ignore_case);
    let width = query.len() as int;
    let cursor = cursor_at(all, width, k);
    let gap = text.subrange(cursor, all[k]);
    let found = text.subrange(all[k], all[k] + width);
    let next = highlight_tail(query, text, ignore_case, k + 1);
    assert(highlight_tail(query, text, ignore_case, k) =~= gap + (begin_marker() + (found + (
        end_marker() + next))));
    assert(text_tail(query, text, ignore_case, k) =~= gap + (found + text_tail(
        query,
        text,
        ignore_case,
        k + 1,
    )));
}

/// Behind the last occurrence highlighting copies the rest of the text.
proof fn lemma_highlight_tail_end(query: Seq<char>, text: Seq<char>, ignore_case: bool)
    ensures
        highlight_tail(
            query,
            text,
            ignore_case,
            search_starts(query, text, ignore_case).len() as int,
        ) == text_tail(
            query,
            text,
            ignore_case,
            search_starts(query, text, ignore_case).len() as int,
        ),
{
    let k = search_starts(query, text, ignore_case).len() as int;
    lemma_cursor_in_text(query, text, ignore_case, k);
}

/// Highlighting puts no marker into the stretches that it copies: none
/// between the cursor and the next occurrence, none inside an occurrence,
/// none behind the last occurrence.
proof fn lemma_no_cut_in_stretch(
    query: Seq<char>,
    text: Seq<char>,
    ignore_case: bool,
    k: int,
    c: int,
)
    requires
        0 <= k <= search_starts(query, text, ignore_case).len(),
        cut_point(query, text, ignore_case, c),
    ensures
        ({
            let all = search_starts(query, text, ignore_case);
            let cursor = cursor_at(all, query.len() as int, k);
            if k < all.len() {
                !(cursor < c < all[k]) && !(all[k] < c < all[k] + query.len())
            } else {
                c <= cursor
            }
        }),
{
    lemma_search_starts_in_text(query, text, ignore_case);
    let all = search_starts(query, text, ignore_case);
    let j = choose|j: int|
        0 <= j < all.len() && (#[trigger] all[j] == c || all[j] + query.len() == c);
    if j < k - 1 {
        assert(all[j] + query.len() <= all[k - 1]);
    }
    if k < all.len() && j < k {
        assert(all[j] + query.len() <= all[k]);
    }
    if k < all.len() && j > k {
        assert(all[k] + query.len() <= all[j]);
    }
}

/// The stretch from `a` to `b` is one that highlighting copies when it has
/// come to occurrence `k`: the stretch before the occurrence, the occurrence
/// itself, or behind the last occurrence the rest of the text.
spec fn copied_stretch(
    query: Seq<char>,
    text: Seq<char>,
    ignore_case: bool,
    k: int,
    a: int,
    b: int,
) -> bool {
    let all = search_starts(query, text, ignore_case);
    let cursor = cursor_at(all, query.len() as int, k);
    if 0 <= k < all.len() {
        (a == cursor && b == all[k]) || (a == all[k] && b == all[k] + query.len())
    } else {
        k == all.len() && a == cursor && b == text.len()
    }
}

/// In a stretch that highlighting copies no marker stands, where
/// highlighting leaves none of the text's own whole.
proof fn lemma_stretch_holds_no_marker(
    query: Seq<char>,
    text: Seq<char>,
    ignore_case: bool,
    k: int,
    a: int,
    b: int,
)
    requires
        markers_cut(query, text, ignore_case),
        copied_stretch(query, text, ignore_case, k, a, b),
        0 <= a <= b <= text.len(),
    ensures
        forall|p: int| !marker_at(text.subrange(a, b), p),
{
    let x = text.subrange(a, b);
    assert forall|p: int| !marker_at(x, p) by {
        assert(!whole_marker_at(query, text, ignore_case, a + p));
        if stands_at(x, begin_marker(), p) {
            let m = begin_marker().len() as int;
            assert(text.subrange(a + p, a + p + m) =~= x.subrange(p, p + m));
            let c = choose|c: int|
                a + p < c < a + p + m && #[trigger] cut_point(query, text, ignore_case, c);
            lemma_no_cut_in_stretch(query, text, ignore_case, k, c);
        }
        if stands_at(x, end_marker(), p) {
            let m = end_marker().len() as int;
            assert(text.subrange(a + p, a + p + m) =~= x.subrange(p, p + m));
            let c = choose|c: int|
                a + p < c < a + p + m && #[trigger] cut_point(query, text, ignore_case, c);
            lemma_no_cut_in_stretch(query, text, ignore_case, k, c);
        }
    }
}

/// Stripping gives a copied stretch back and leaves out the marker behind
/// it, where highlighting leaves no marker of the text's own whole.
proof fn lemma_strip_stretch(
    query: Seq<char>,
    text: Seq<char>,
    ignore_case: bool,
    k: int,
    a: int,
    b: int,
    marker: Seq<char>,
    z: Seq<char>,
)
    requires
        markers_cut(query, text, ignore_case),
        copied_stretch(query, text, ignore_case, k, a, b),
        0 <= a <= b <= text.len(),
        is_marker(marker),
    ensures
        strip_markers(text.subrange(a, b) + (marker + z)) == text.subrange(a, b) + strip_markers(
            z,
        ),
{
    lemma_stretch_holds_no_marker(query, text, ignore_case, k, a, b);
    lemma_strip_marker(marker, z);
    lemma_strip_plain(text.subrange(a, b), marker + z);
}

/// Stripping the markers from what highlighting makes of the text from
/// occurrence `k` on gives back the text from there on.
proof fn lemma_strip_highlight_tail(query: Seq<char>, text: Seq<char>, ignore_case: bool, k: int)
    requires
        markers_cut(query, text, ignore_case),
        0 <= k <= search_starts(query, text, ignore_case).len(),
    ensures
        strip_markers(highlight_tail(query, text, ignore_case, k)) == text_tail(
            query,
            text,
            ignore_case,
            k,
        ),
    decreases search_starts(query, text, ignore_case).len() - k,
{
    let all = search_starts(query, text, ignore_case);
    let width = query.len() as int;
    let cursor = cursor_at(all, width, k);
    let end = text.len() as int;
    if k >= all.len() {
        let none = Seq::<char>::empty();
        let x = text.subrange(cursor, end);
        lemma_cursor_in_text(query, text, ignore_case, k);
        lemma_highlight_tail_end(query, text, ignore_case);
        lemma_stretch_holds_no_marker(query, text, ignore_case, k, cursor, end);
        lemma_strip_plain(x, none);
        assert(x + none =~= x);
        assert(x + strip_markers(none) =~= x);
    } else {
        let gap = text.subrange(cursor, all[k]);
        let found = text.subrange(all[k], all[k] + width);
        let next = highlight_tail(query, text, ignore_case, k + 1);
        lemma_highlight_tail_parts(query, text, ignore_case, k);
        lemma_strip_highlight_tail(query, text, ignore_case, k + 1);
        lemma_strip_stretch(
            query,
            text,
            ignore_case,
            k,
            cursor,
            all[k],
            begin_marker(),
            found + (end_marker() + next),
        );
        lemma_strip_stretch(
            query,
            text,
            ignore_case,
            k,
            all[k],
            all[k] + width,
            end_marker(),
            next,
        );
    }
}

/// Stripping the markers from a highlighted text gives back the text,
/// character for character, for every query and for every text in which
/// highlighting leaves no marker of the text's own whole.
pub proof fn lemma_highlight_round_trip(query: Seq<char>, text: Seq<char>, ignore_case: bool)
    requires
        markers_cut(query, text, ignore_case),
    ensures
        strip_markers(highlight(query, text, ignore_case)) == text,
{
    lemma_strip_highlight_tail(query, text, ignore_case, 0);
    assert(text.skip(0) =~= text);
}

/// Stripping the markers from a highlighted text gives back the text,
/// character for character, for every query and for every text that holds
/// no marker of its own.
pub proof fn lemma_marker_free_round_trip(query: Seq<char>, text: Seq<char>, ignore_case: bool)
    requires
        marker_free(text),
    ensures
        strip_markers(highlight(query, text, ignore_case)) == text,
{
    assert forall|p: int| !whole_marker_at(query, text, ignore_case, p) by {
        assert(!marker_at(text, p));
    }
    lemma_highlight_round_trip(query, text, ignore_case);
}

/// Of a stretch and the marker behind it stripping leaves no more than the
/// characters of the stretch.
proof fn lemma_strip_stretch_bound(x: Seq<char>, marker: Seq<char>, z: Seq<char>)
    requires
        is_marker(marker),
    ensures
        strip_markers(x + (marker + z)).len() <= x.len() + strip_markers(z).len(),
{
    lemma_strip_marker(marker, z);
    lemma_strip_bound(x, marker + z);
}

/// Of a stretch in which a marker stands, and the marker behind the stretch,
/// stripping leaves fewer than the characters of the stretch.
proof fn lemma_strip_stretch_loses(
    text: Seq<char>,
    a: int,
    b: int,
    marker: Seq<char>,
    z: Seq<char>,
    lost: Seq<char>,
    p: int,
)
    requires
        is_marker(marker),
        is_marker(lost),
        0 <= a <= p,
        p + lost.len() <= b <= text.len(),
        stands_at(text, lost, p),
    ensures
        strip_markers(text.subrange(a, b) + (marker + z)).len() < b - a + strip_markers(z).len(),
{
    let x = text.subrange(a, b);
    assert(x.subrange(p - a, p - a + lost.len()) =~= text.subrange(p, p + lost.len()));
    lemma_strip_marker(marker, z);
    lemma_strip_loses(x, marker + z, lost, p - a);
}

/// Of what highlighting makes of the text from occurrence `k` on, stripping
/// leaves no more characters than the text has from there on.
proof fn lemma_strip_highlight_bound(query: Seq<char>, text: Seq<char>, ignore_case: bool, k: int)
    requires
        0 <= k <= search_starts(query, text, ignore_case).len(),
    ensures
        strip_markers(highlight_tail(query, text, ignore_case, k)).len() <= text_tail(
            query,
            text,
            ignore_case,
            k,
        ).len(),
    decreases search_starts(query, text, ignore_case).len() - k,
{
    let all = search_starts(query, text, ignore_case);
    let width = query.len() as int;
    let cursor = cursor_at(all, width, k);
    if k >= all.len() {
        let none = Seq::<char>::empty();
        let x = text_tail(query, text, ignore_case, k);
        lemma_highlight_tail_end(query, text, ignore_case);
        lemma_strip_bound(x, none);
        assert(x + none =~= x);
    } else {
        let gap = text.subrange(cursor, all[k]);
        let found = text.subrange(all[k], all[k] + width);
        let next = highlight_tail(query, text, ignore_case, k + 1);
        lemma_highlight_tail_parts(query, text, ignore_case, k);
        lemma_strip_highlight_bound(query, text, ignore_case, k + 1);
        lemma_strip_stretch_bound(gap, begin_marker(), found + (end_marker() + next));
        lemma_strip_stretch_bound(found, end_marker(), next);
    }
}

/// Of what highlighting makes of the text from occurrence `k` on, stripping
/// leaves fewer characters than the text has from there on, where a marker
/// of the text's own is left whole at or behind the cursor.
proof fn lemma_strip_highlight_loses(
    query: Seq<char>,
    text: Seq<char>,
    ignore_case: bool,
    k: int,
    lost: Seq<char>,
    p: int,
)
    requires
        0 <= k <= search_starts(query, text, ignore_case).len(),
        is_marker(lost),
        stays_whole(query, text, ignore_case, lost, p),
        cursor_at(search_starts(query, text, ignore_case), query.len() as int, k) <= p,
    ensures
        strip_markers(highlight_tail(query, text, ignore_case, k)).len() < text_tail(
            query,
            text,
            ignore_case,
            k,
        ).len(),
    decreases search_starts(query, text, ignore_case).len() - k,
{
    let all = search_starts(query, text, ignore_case);
    let width = query.len() as int;
    let cursor = cursor_at(all, width, k);
    let m = lost.len() as int;
    lemma_cursor_in_text(query, text, ignore_case, k);
    if k >= all.len() {
        let none = Seq::<char>::empty();
        let x = text_tail(query, text, ignore_case, k);
        lemma_highlight_tail_end(query, text, ignore_case);
        assert(x.subrange(p - cursor, p - cursor + m) =~= text.subrange(p, p + m));
        lemma_strip_loses(x, none, lost, p - cursor);
        assert(x + none =~= x);
    } else {
        let s = all[k];
        let gap = text.subrange(cursor, s);
        let found = text.subrange(s, s + width);
        let next = highlight_tail(query, text, ignore_case, k + 1);
        let framed = found + (end_marker() + next);
        lemma_highlight_tail_parts(query, text, ignore_case, k);
        assert(cut_point(query, text, ignore_case, s));
        assert(cut_point(query, text, ignore_case, s + width));
        if p + m <= s {
            lemma_strip_stretch_loses(text, cursor, s, begin_marker(), framed, lost, p);
            lemma_strip_stretch_bound(found, end_marker(), next);
            lemma_strip_highlight_bound(query, text, ignore_case, k + 1);
        } else if p + m <= s + width {
            lemma_strip_stretch_bound(gap, begin_marker(), framed);
            lemma_strip_stretch_loses(text, s, s + width, end_marker(), next, lost, p);
            lemma_strip_highlight_bound(query, text, ignore_case, k + 1);
        } else {
            lemma_strip_stretch_bound(gap, begin_marker(), framed);
            lemma_strip_stretch_bound(found, end_marker(), next);
            lemma_strip_highlight_loses(query, text, ignore_case, k + 1, lost, p);
        }
    }
}

/// Where highlighting leaves a marker of the text's own whole, stripping the
/// markers from the highlighted text does not give the text back: what it
/// gives is shorter.
pub proof fn lemma_whole_marker_is_lost(
    query: Seq<char>,
    text: Seq<char>,
    ignore_case: bool,
    p: int,
)
    requires
        whole_marker_at(query, text, ignore_case, p),
    ensures
        strip_markers(highlight(query, text, ignore_case)).len() < text.len(),
        strip_markers(highlight(query, text, ignore_case)) != text,
{
    if stays_whole(query, text, ignore_case, begin_marker(), p) {
        lemma_strip_highlight_loses(query, text, ignore_case, 0, begin_marker(), p);
    } else {
        lemma_strip_highlight_loses(query, text, ignore_case, 0, end_marker(), p);
    }
    assert(text.skip(0) =~= text);
}

/// The stretches that marking copies and the occurrences that it frames are
/// the text, piece by piece: framed with nothing, the text comes out as it is.
proof fn lemma_marked_with_nothing(
    text: Seq<char>,
    starts: Seq<int>,
    width: int,
    k: int,
    cursor: int,
)
    requires
        0 <= width,
        0 <= k <= starts.len(),
        0 <= cursor <= text.len(),
        forall|j: int|
            k <= j < starts.len() ==> cursor <= #[trigger] starts[j] <= text.len() - width,
        forall|i: int, j: int|
            k <= i < j < starts.len() ==> #[trigger] starts[i] + width <= #[trigger] starts[j],
    ensures
        marked_from(text, starts, width, k, cursor, Seq::empty(), Seq::empty()) == text.subrange(
            cursor,
            text.len() as int,
        ),
    decreases starts.len() - k,
{
    if k < starts.len() {
        let s = starts[k];
        let none = Seq::<char>::empty();
        lemma_marked_with_nothing(text, starts, width, k + 1, s + width);
        assert(text.subrange(cursor, s) + none + text.subrange(s, s + width) + none
            + text.subrange(s + width, text.len() as int) =~= text.subrange(
            cursor,
            text.len() as int,
        ));
    }
}

/// Highlighting adds the markers and nothing else, for every query and every
/// text: what it copies and what it frames are together the text, character
/// for character.
pub proof fn lemma_highlight_keeps_text(query: Seq<char>, text: Seq<char>, ignore_case: bool)
    ensures
        marked(query, text, ignore_case, Seq::empty(), Seq::empty()) == text,
{
    lemma_search_starts_in_text(query, text, ignore_case);
    lemma_marked_with_nothing(
        text,
        search_starts(query, text, ignore_case),
        query.len() as int,
        0,
        0,
    );
    assert(text.subrange(0, text.len() as int) =~= text);
}

} // verus!
