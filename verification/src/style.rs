//! Terminal styles, and the highlighting of a query in a line of text.
//!
//! A style is an ANSI escape sequence: the escape character, `[`, the decimal
//! number of the style, and `m`. Highlighting puts such sequences round every
//! occurrence of the query and leaves the rest of the text as it is.
use vstd::prelude::*;
use vstd::string::StringExecFns;
use vstd::utf8::encode_utf8;
use crate::find_all;
use crate::fold::folded;
use crate::offsets::{byte_offset, lemma_byte_offset_skip, split_chars};
use crate::scan::{
    cursor_at, lemma_absent_iff_no_occurrence, lemma_cursor_in_text, search_finds, search_starts,
};
use crate::spans::reports;
use crate::text::decimal;

verus! {

/// The styles and colours that the output uses.
#[derive(Clone, Copy, Debug)]
pub enum ANSIStyle {
    Reset,
    Bold,
    Italic,
    Underline,
    Blink,
    FGBlack,
    FGRed,
    FGGreen,
    FGYellow,
    FGBlue,
    FGMagenta,
    FGCyan,
    FGWhite,
    FGDef,
    BGBlack,
    BGRed,
    BGGreen,
    BGYellow,
    BGBlue,
    BGMagenta,
    BGCyan,
    BGWhite,
    BGDef,
}

impl ANSIStyle {
    /// The number by which a terminal knows the style.
    pub open spec fn number(self) -> nat {
        match self {
            ANSIStyle::Reset => 0,
            ANSIStyle::Bold => 1,
            ANSIStyle::Italic => 3,
            ANSIStyle::Underline => 4,
            ANSIStyle::Blink => 5,
            ANSIStyle::FGBlack => 30,
            ANSIStyle::FGRed => 31,
            ANSIStyle::FGGreen => 32,
            ANSIStyle::FGYellow => 33,
            ANSIStyle::FGBlue => 34,
            ANSIStyle::FGMagenta => 35,
            ANSIStyle::FGCyan => 36,
            ANSIStyle::FGWhite => 37,
            ANSIStyle::FGDef => 39,
            ANSIStyle::BGBlack => 40,
            ANSIStyle::BGRed => 41,
            ANSIStyle::BGGreen => 42,
            ANSIStyle::BGYellow => 43,
            ANSIStyle::BGBlue => 44,
            ANSIStyle::BGMagenta => 45,
            ANSIStyle::BGCyan => 46,
            ANSIStyle::BGWhite => 47,
            ANSIStyle::BGDef => 49,
        }
    }

    /// The escape sequence of the style: escape, `[`, its number, `m`.
    pub open spec fn code(self) -> Seq<char> {
        seq!['\x1b', '['] + decimal(self.number()) + seq!['m']
    }

    /// The escape sequence of the style.
    pub fn as_str(&self) -> (s: &'static str)
        ensures
            s@ == self.code(),
    {
        proof {
            reveal_with_fuel(decimal, 2);
            reveal_strlit("\x1b[0m");
            reveal_strlit("\x1b[1m");
            reveal_strlit("\x1b[3m");
            reveal_strlit("\x1b[4m");
            reveal_strlit("\x1b[5m");
            reveal_strlit("\x1b[30m");
            reveal_strlit("\x1b[31m");
            reveal_strlit("\x1b[32m");
            reveal_strlit("\x1b[33m");
            reveal_strlit("\x1b[34m");
            reveal_strlit("\x1b[35m");
            reveal_strlit("\x1b[36m");
            reveal_strlit("\x1b[37m");
            reveal_strlit("\x1b[39m");
            reveal_strlit("\x1b[40m");
            reveal_strlit("\x1b[41m");
            reveal_strlit("\x1b[42m");
            reveal_strlit("\x1b[43m");
            reveal_strlit("\x1b[44m");
            reveal_strlit("\x1b[45m");
            reveal_strlit("\x1b[46m");
            reveal_strlit("\x1b[47m");
            reveal_strlit("\x1b[49m");
        }
        let s = match *self {
            ANSIStyle::Reset => "\x1b[0m",
            ANSIStyle::Bold => "\x1b[1m",
            ANSIStyle::Italic => "\x1b[3m",
            ANSIStyle::Underline => "\x1b[4m",
            ANSIStyle::Blink => "\x1b[5m",
            ANSIStyle::FGBlack => "\x1b[30m",
            ANSIStyle::FGRed => "\x1b[31m",
            ANSIStyle::FGGreen => "\x1b[32m",
            ANSIStyle::FGYellow => "\x1b[33m",
            ANSIStyle::FGBlue => "\x1b[34m",
            ANSIStyle::FGMagenta => "\x1b[35m",
            ANSIStyle::FGCyan => "\x1b[36m",
            ANSIStyle::FGWhite => "\x1b[37m",
            ANSIStyle::FGDef => "\x1b[39m",
            ANSIStyle::BGBlack => "\x1b[40m",
            ANSIStyle::BGRed => "\x1b[41m",
            ANSIStyle::BGGreen => "\x1b[42m",
            ANSIStyle::BGYellow => "\x1b[43m",
            ANSIStyle::BGBlue => "\x1b[44m",
            ANSIStyle::BGMagenta => "\x1b[45m",
            ANSIStyle::BGCyan => "\x1b[46m",
            ANSIStyle::BGWhite => "\x1b[47m",
            ANSIStyle::BGDef => "\x1b[49m",
        };
        assert(s@ =~= self.code());
        s
    }
}

/// What opens a highlighted stretch: the red background.
pub open spec fn begin_marker() -> Seq<char> {
    ANSIStyle::BGRed.code()
}

/// What closes a highlighted stretch: the reset.
pub open spec fn end_marker() -> Seq<char> {
    ANSIStyle::Reset.code()
}

/// The text from character `cursor` on, with each of the occurrences
/// `starts[k..]`, all `width` characters long, put between `begin` and `end`.
/// What lies before an occurrence, between two of them and behind the last is
/// copied as it is.
pub open spec fn marked_from(
    text: Seq<char>,
    starts: Seq<int>,
    width: int,
    k: int,
    cursor: int,
    begin: Seq<char>,
    end: Seq<char>,
) -> Seq<char>
    decreases starts.len() - k,
{
    if k < 0 || k >= starts.len() {
        text.subrange(cursor, text.len() as int)
    } else {
        text.subrange(cursor, starts[k]) + begin + text.subrange(starts[k], starts[k] + width)
            + end + marked_from(text, starts, width, k + 1, starts[k] + width, begin, end)
    }
}

/// The text with every occurrence of `query` that a scan reports put between
/// `begin` and `end`. The occurrences are found in the folded text, and are
/// copied from the text as it is given.
pub open spec fn marked(
    query: Seq<char>,
    text: Seq<char>,
    ignore_case: bool,
    begin: Seq<char>,
    end: Seq<char>,
) -> Seq<char> {
    marked_from(
        text,
        search_starts(query, text, ignore_case),
        query.len() as int,
        0,
        0,
        begin,
        end,
    )
}

/// The text with every occurrence of `query` that a scan reports put between
/// the two markers. The occurrences keep the characters of the text, also
/// where they were found without regard to case.
pub open spec fn highlight(query: Seq<char>, text: Seq<char>, ignore_case: bool) -> Seq<char> {
    marked(query, text, ignore_case, begin_marker(), end_marker())
}

/// What highlighting makes of the text from `cursor` on, when the occurrences
/// before `starts[k]` are done.
pub open spec fn highlight_from(
    text: Seq<char>,
    starts: Seq<int>,
    width: int,
    k: int,
    cursor: int,
) -> Seq<char> {
    marked_from(text, starts, width, k, cursor, begin_marker(), end_marker())
}

/// Appends to `out` the first `i` characters of `rest` as they are and the
/// `n` characters behind them between the two markers, and hands back what
/// of `rest` lies behind those. The two stretches are `gap` and `found` bytes
/// long.
fn push_marked<'a>(
    out: &mut String,
    rest: &'a str,
    gap: usize,
    found: usize,
    Ghost(i): Ghost<int>,
    Ghost(n): Ghost<int>,
) -> (behind: &'a str)
    requires
        0 <= i,
        0 <= n,
        i + n <= rest@.len(),
        gap == byte_offset(rest@, i),
        gap + found == byte_offset(rest@, i + n),
    ensures
        final(out)@ == old(out)@ + (rest@.take(i) + begin_marker() + rest@.subrange(i, i + n)
            + end_marker()),
        behind@ == rest@.skip(i + n),
{
    proof {
        lemma_byte_offset_skip(rest@, i, n);
    }
    let (before, tail) = split_chars(rest, gap, Ghost(i));
    let (occurrence, behind) = split_chars(tail, found, Ghost(n));
    let ghost done = out@;
    out.append(before);
    out.append(ANSIStyle::BGRed.as_str());
    out.append(occurrence);
    out.append(ANSIStyle::Reset.as_str());
    proof {
        assert(occurrence@ =~= rest@.subrange(i, i + n));
        assert(behind@ =~= rest@.skip(i + n));
        assert(out@ =~= done + (rest@.take(i) + begin_marker() + rest@.subrange(i, i + n)
            + end_marker()));
    }
    behind
}

/// What highlighting makes of the text from the cursor on begins with the
/// stretch before the next occurrence and that occurrence between the
/// markers.
proof fn lemma_highlight_step(
    text: Seq<char>,
    starts: Seq<int>,
    width: int,
    k: int,
    cursor: int,
    done: Seq<char>,
)
    requires
        0 <= k < starts.len(),
        0 <= cursor <= starts[k],
        0 <= width,
        starts[k] + width <= text.len(),
    ensures
        ({
            let rest = text.skip(cursor);
            let i = starts[k] - cursor;
            done + (rest.take(i) + begin_marker() + rest.subrange(i, i + width) + end_marker())
                + highlight_from(text, starts, width, k + 1, starts[k] + width) == done
                + highlight_from(text, starts, width, k, cursor)
        }),
        text.skip(cursor).skip(starts[k] - cursor + width) == text.skip(starts[k] + width),
{
    let rest = text.skip(cursor);
    let i = starts[k] - cursor;
    assert(rest.take(i) =~= text.subrange(cursor, starts[k]));
    assert(rest.subrange(i, i + width) =~= text.subrange(starts[k], starts[k] + width));
    assert(rest.skip(i + width) =~= text.skip(starts[k] + width));
    assert(done + (rest.take(i) + begin_marker() + rest.subrange(i, i + width) + end_marker())
        + highlight_from(text, starts, width, k + 1, starts[k] + width) =~= done + highlight_from(
        text,
        starts,
        width,
        k,
        cursor,
    ));
}

/// Highlights `query` in `text`: a copy of `text` in which each occurrence
/// that `find_all` reports stands between the red background and the reset.
/// Where there is no occurrence the copy is `text` itself.
pub fn hg_query(query: &str, text: &str, ignore_case: bool) -> (res: String)
    ensures
        res@ == highlight(query@, text@, ignore_case),
        !search_finds(query@, text@, ignore_case) ==> res@ == text@,
{
    let ghost all = search_starts(query@, text@, ignore_case);
    let ghost width = query@.len() as int;
    proof {
        lemma_absent_iff_no_occurrence(folded(query@, ignore_case), folded(text@, ignore_case));
        assert(text@.subrange(0, text@.len() as int) =~= text@);
    }
    match find_all(query, text, ignore_case) {
        Some(vec) => {
            let mut out = String::new();
            let mut rest: &str = text;
            let mut l: usize = 0;
            let mut k: usize = 0;
            let ghost mut cursor: int = 0;
            proof {
                assert(text@.take(0) =~= Seq::<char>::empty());
                assert(text@.skip(0) =~= text@);
                assert(out@ + highlight(query@, text@, ignore_case) =~= highlight(
                    query@,
                    text@,
                    ignore_case,
                ));
            }
            while k < vec.len()
                invariant
                    all == search_starts(query@, text@, ignore_case),
                    width == query@.len(),
                    reports(vec@, query@, text@, ignore_case),
                    forall|j: int|
                        0 <= j < vec@.len() ==> (#[trigger] vec@[j]).0 + vec@[j].1 <= usize::MAX
                            && vec@[j].1 == encode_utf8(query@).len(),
                    0 <= k <= vec@.len(),
                    cursor == cursor_at(all, width, k as int),
                    l == byte_offset(text@, cursor),
                    rest@ == text@.skip(cursor),
                    out@ + highlight_from(text@, all, width, k as int, cursor) == highlight(
                        query@,
                        text@,
                        ignore_case,
                    ),
                decreases vec@.len() - k,
            {
                let (x, n) = vec[k];
                let ghost s = all[k as int];
                proof {
                    lemma_cursor_in_text(query@, text@, ignore_case, k as int);
                    lemma_byte_offset_skip(text@, cursor, s - cursor);
                    lemma_byte_offset_skip(text@, cursor, s - cursor + width);
                    lemma_highlight_step(text@, all, width, k as int, cursor, out@);
                }
                rest = push_marked(&mut out, rest, x - l, n, Ghost(s - cursor), Ghost(width));
                l = x + query.len();
                k += 1;
                proof {
                    cursor = s + width;
                }
            }
            out.append(rest);
            proof {
                lemma_cursor_in_text(query@, text@, ignore_case, k as int);
                assert(text@.skip(cursor) =~= text@.subrange(cursor, text@.len() as int));
            }
            out
        },
        None => text.to_owned(),
    }
}

} // verus!
