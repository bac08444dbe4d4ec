//! A file that is searched: its path, the query, and the case mode, and
//! what is shown of its lines in each of the three display modes.
//!
//! The lines of the file are handed in by the caller, one string for each
//! line and without the line ends. A file that cannot be read counts as a
//! file without lines. What is shown is handed back as the strings to put
//! out, each on a line of its own.
use vstd::prelude::*;
use vstd::string::StringExecFns;
use crate::cells::{Cell, CellView};
use crate::count_query;
use crate::scan::search_count;
use crate::style::ANSIStyle;
use crate::text::{decimal, decimal_string};

verus! {

/// The occurrences of `query` in all the `lines` together: the sum of what a
/// scan reports for each line.
pub open spec fn total_count(query: Seq<char>, lines: Seq<Seq<char>>, ignore_case: bool) -> nat
    decreases lines.len(),
{
    if lines.len() == 0 {
        0
    } else {
        total_count(query, lines.drop_last(), ignore_case) + search_count(
            query,
            lines.last(),
            ignore_case,
        )
    }
}

/// The sum of `i + 1` numbers that each fit the machine's word fits 128 bits.
proof fn lemma_sum_fits(i: int)
    requires
        0 <= i < usize::MAX,
    ensures
        i * usize::MAX + usize::MAX == (i + 1) * usize::MAX,
        (i + 1) * usize::MAX <= u128::MAX,
{
    assert(i * usize::MAX + usize::MAX == (i + 1) * usize::MAX) by (nonlinear_arith);
    assert((i + 1) * usize::MAX <= 0xffff_ffff_ffff_ffff * 0xffff_ffff_ffff_ffff)
        by (nonlinear_arith)
        requires
            0 <= i + 1 <= 0xffff_ffff_ffff_ffff,
            0 <= usize::MAX <= 0xffff_ffff_ffff_ffff,
    ;
}

/// A file to search, with the query and the case mode of the search.
#[derive(Debug)]
pub struct ReadableFile {
    path: String,
    query: String,
    ignore_case: bool,
}

/// What a file to search stands for.
pub struct ReadableFileView {
    pub path: Seq<char>,
    pub query: Seq<char>,
    pub ignore_case: bool,
}

impl View for ReadableFile {
    type V = ReadableFileView;

    closed spec fn view(&self) -> ReadableFileView {
        ReadableFileView { path: self.path@, query: self.query@, ignore_case: self.ignore_case }
    }
}

impl DeepView for ReadableFile {
    type V = ReadableFileView;

    open spec fn deep_view(&self) -> ReadableFileView {
        self@
    }
}

impl ReadableFileView {
    /// The number of occurrences of the query in the lines.
    pub open spec fn count(self, lines: Seq<Seq<char>>) -> nat {
        total_count(self.query, lines, self.ignore_case)
    }

    /// The summary of the file: its path, and in brackets the number of
    /// occurrences of the query in its lines.
    pub open spec fn head(self, lines: Seq<Seq<char>>) -> Seq<char> {
        ANSIStyle::Bold.code() + "- Filename: "@ + ANSIStyle::Italic.code()
            + ANSIStyle::FGWhite.code() + "'"@ + self.path + "'"@ + ANSIStyle::Reset.code() + " "@
            + ANSIStyle::FGGreen.code() + "["@ + decimal(self.count(lines)) + "]"@
            + ANSIStyle::Reset.code()
    }

    /// The summary between an empty line before it and one behind it.
    pub open spec fn head_block(self, lines: Seq<Seq<char>>) -> Seq<char> {
        "\n"@ + self.head(lines) + "\n"@
    }

    /// The cell of the line with number `lineno`, counted from one.
    pub open spec fn cell(self, lines: Seq<Seq<char>>, lineno: int) -> CellView {
        CellView { query: self.query, line: lines[lineno - 1], lineno: lineno as nat, indent: 1 }
    }

    /// The shown cells of the first `upto` lines, in the order of the lines.
    /// With `every_line` each line is shown, and the colour of its number
    /// tells whether it matches; without, only the lines that match are shown.
    pub open spec fn cell_lines(self, lines: Seq<Seq<char>>, upto: int, every_line: bool) -> Seq<
        Seq<char>,
    >
        decreases upto,
    {
        if upto <= 0 {
            Seq::empty()
        } else {
            let before = self.cell_lines(lines, upto - 1, every_line);
            let cell = self.cell(lines, upto);
            if every_line || cell.matches(self.ignore_case) {
                before.push(cell.rendered(every_line, self.ignore_case))
            } else {
                before
            }
        }
    }

    /// What the count mode shows: the summary and nothing else.
    pub open spec fn count_output(self, lines: Seq<Seq<char>>) -> Seq<Seq<char>> {
        seq![self.head(lines)]
    }

    /// What the default mode shows: the summary, then the lines that match.
    pub open spec fn cells_output(self, lines: Seq<Seq<char>>) -> Seq<Seq<char>> {
        seq![self.head_block(lines)] + self.cell_lines(lines, lines.len() as int, false)
    }

    /// What the page mode shows: the summary, then every line.
    pub open spec fn page_output(self, lines: Seq<Seq<char>>) -> Seq<Seq<char>> {
        seq![self.head_block(lines)] + self.cell_lines(lines, lines.len() as int, true)
    }
}

impl ReadableFile {
    /// A file at `path` in which `query` is sought.
    pub fn new(path: String, query: String, ignore_case: bool) -> (file: Self)
        ensures
            file@ == (ReadableFileView { path: path@, query: query@, ignore_case }),
    {
        Self { path, query, ignore_case }
    }

    /// The path of the file.
    pub fn path(&self) -> (path: &str)
        ensures
            path@ == self@.path,
    {
        self.path.as_str()
    }

    /// Counts the occurrences of `query` in the lines, in the case mode of
    /// the file. The count has 128 bits: the sum over as many lines as a
    /// vector holds, of counts as large as a line allows, always fits there.
    pub fn get_count(&self, query: &str, lines: &Vec<String>) -> (count: u128)
        ensures
            count == total_count(query@, lines.deep_view(), self@.ignore_case),
    {
        let ghost all = lines.deep_view();
        let mut c: u128 = 0;
        let mut i: usize = 0;
        assert(all.take(0) =~= Seq::<Seq<char>>::empty());
        while i < lines.len()
            invariant
                0 <= i <= lines@.len(),
                all == lines.deep_view(),
                c == total_count(query@, all.take(i as int), self@.ignore_case),
                c <= i * usize::MAX,
            decreases lines@.len() - i,
        {
            proof {
                assert(all.take(i + 1).drop_last() =~= all.take(i as int));
                assert(all.take(i + 1).last() == lines@[i as int]@);
                lemma_sum_fits(i as int);
            }
            if let Some(count) = count_query(query, lines[i].as_str(), self.ignore_case) {
                c += count as u128;
            }
            i += 1;
        }
        assert(all.take(i as int) =~= all);
        c
    }

    /// The summary of the file over the given lines.
    pub fn get_head(&self, lines: &Vec<String>) -> (head: String)
        ensures
            head@ == self@.head(lines.deep_view()),
    {
        let count = self.get_count(self.query.as_str(), lines);
        let mut head = String::new();
        head.append(ANSIStyle::Bold.as_str());
        head.append("- Filename: ");
        head.append(ANSIStyle::Italic.as_str());
        head.append(ANSIStyle::FGWhite.as_str());
        head.append("'");
        head.append(self.path.as_str());
        head.append("'");
        head.append(ANSIStyle::Reset.as_str());
        head.append(" ");
        head.append(ANSIStyle::FGGreen.as_str());
        head.append("[");
        head.append(decimal_string(count).as_str());
        head.append("]");
        head.append(ANSIStyle::Reset.as_str());
        assert(head@ =~= self@.head(lines.deep_view()));
        head
    }

    /// The summary between an empty line before it and one behind it.
    fn get_head_block(&self, lines: &Vec<String>) -> (block: String)
        ensures
            block@ == self@.head_block(lines.deep_view()),
    {
        let mut block = String::new();
        block.append("\n");
        block.append(self.get_head(lines).as_str());
        block.append("\n");
        block
    }

    /// The summary, then the shown cells of the lines: of every line, or of
    /// those that match.
    fn render_lines(&self, lines: &Vec<String>, every_line: bool) -> (out: Vec<String>)
        ensures
            out.deep_view() == seq![self@.head_block(lines.deep_view())] + self@.cell_lines(
                lines.deep_view(),
                lines@.len() as int,
                every_line,
            ),
    {
        let ghost all = lines.deep_view();
        let ghost block = self@.head_block(all);
        let mut out: Vec<String> = Vec::new();
        out.push(self.get_head_block(lines));
        assert(out.deep_view() =~= seq![block] + self@.cell_lines(all, 0, every_line));
        let mut i: usize = 0;
        while i < lines.len()
            invariant
                0 <= i <= lines@.len(),
                all == lines.deep_view(),
                block == self@.head_block(all),
                out.deep_view() == seq![block] + self@.cell_lines(all, i as int, every_line),
            decreases lines@.len() - i,
        {
            let cell = Cell::new(self.query.clone(), lines[i].clone(), i + 1, 1);
            assert(cell@ == self@.cell(all, i + 1));
            let ghost before = out.deep_view();
            if every_line {
                out.push(cell.render(Some(true), self.ignore_case));
                assert(out.deep_view() =~= before.push(
                    cell@.rendered(true, self@.ignore_case),
                ));
            } else if cell.check_line(self.ignore_case) {
                out.push(cell.render(None, self.ignore_case));
                assert(out.deep_view() =~= before.push(
                    cell@.rendered(false, self@.ignore_case),
                ));
            }
            assert(out.deep_view() =~= seq![block] + self@.cell_lines(all, i + 1, every_line));
            i += 1;
        }
        out
    }

    /// What the count mode shows of the file: the summary.
    pub fn render_count(&self, lines: &Vec<String>) -> (out: Vec<String>)
        ensures
            out.deep_view() == self@.count_output(lines.deep_view()),
    {
        let mut out: Vec<String> = Vec::new();
        out.push(self.get_head(lines));
        assert(out.deep_view() =~= self@.count_output(lines.deep_view()));
        out
    }

    /// What the default mode shows of the file: the summary, then one cell
    /// for each line that matches, with its number in the file.
    pub fn render_cells(&self, lines: &Vec<String>) -> (out: Vec<String>)
        ensures
            out.deep_view() == self@.cells_output(lines.deep_view()),
    {
        self.render_lines(lines, false)
    }

    /// What the page mode shows of the file: the summary, then one cell for
    /// every line, the number of a line that matches in red.
    pub fn render_page(&self, lines: &Vec<String>) -> (out: Vec<String>)
        ensures
            out.deep_view() == self@.page_output(lines.deep_view()),
    {
        self.render_lines(lines, true)
    }
}

} // verus!
