//! One line of a file as it is shown: its number, a gap, and its text with
//! the matches highlighted.
use vstd::prelude::*;
use vstd::string::StringExecFns;
use crate::count_query;
use crate::scan::search_finds;
use crate::style::{hg_query, highlight, ANSIStyle};
use crate::text::{blanks, decimal, decimal_string, decimal_width, spaces};

verus! {

/// The width of the column that holds a line number and the gap behind it.
pub const VOID: usize = 7;

/// One line of a file together with the query that is sought in it.
#[derive(Debug)]
pub struct Cell {
    query: String,
    line: String,
    lineno: usize,
    start_at: usize,
}

/// What a cell stands for: the query, the text of the line, the number of the
/// line and the number of blanks that the shown line begins with.
pub struct CellView {
    pub query: Seq<char>,
    pub line: Seq<char>,
    pub lineno: nat,
    pub indent: nat,
}

impl View for Cell {
    type V = CellView;

    closed spec fn view(&self) -> CellView {
        CellView {
            query: self.query@,
            line: self.line@,
            lineno: self.lineno as nat,
            indent: self.start_at as nat,
        }
    }
}

impl CellView {
    /// The line holds an occurrence of the query.
    pub open spec fn matches(self, ignore_case: bool) -> bool {
        search_finds(self.query, self.line, ignore_case)
    }

    /// The colour of the line number. It is green, but for a line that
    /// matches when the colour is asked to follow the match: that one is red.
    pub open spec fn lineno_style(self, dyn_color: bool, ignore_case: bool) -> ANSIStyle {
        if dyn_color && self.matches(ignore_case) {
            ANSIStyle::FGRed
        } else {
            ANSIStyle::FGGreen
        }
    }

    /// The line number in its colour, followed by the reset.
    pub open spec fn formatted_lineno(self, dyn_color: bool, ignore_case: bool) -> Seq<char> {
        self.lineno_style(dyn_color, ignore_case).code() + decimal(self.lineno)
            + ANSIStyle::Reset.code()
    }

    /// The number of blanks that fill the number column up. A number that is
    /// as wide as the column or wider gets none.
    pub open spec fn gap(self) -> nat {
        if decimal(self.lineno).len() < VOID {
            (VOID - decimal(self.lineno).len()) as nat
        } else {
            0
        }
    }

    /// The shown line: the indent, the coloured line number, one blank, the
    /// gap, and the text with its matches highlighted.
    pub open spec fn rendered(self, dyn_color: bool, ignore_case: bool) -> Seq<char> {
        blanks(self.indent) + self.formatted_lineno(dyn_color, ignore_case) + seq![' '] + blanks(
            self.gap(),
        ) + highlight(self.query, self.line, ignore_case)
    }
}

impl Cell {
    /// A cell for line number `lineno` with the text `line`, to be shown
    /// behind `start_at` blanks.
    pub fn new(query: String, line: String, lineno: usize, start_at: usize) -> (cell: Self)
        ensures
            cell@ == (CellView {
                query: query@,
                line: line@,
                lineno: lineno as nat,
                indent: start_at as nat,
            }),
    {
        Self { query, line, lineno, start_at }
    }

    /// Tells whether the line holds an occurrence of the query.
    pub fn check_line(&self, ignore_case: bool) -> (found: bool)
        ensures
            found == self@.matches(ignore_case),
    {
        if let Some(_) = count_query(self.query.as_str(), self.line.as_str(), ignore_case) {
            return true;
        }
        false
    }

    /// The text of the line with the matches highlighted.
    pub fn get_formatted_line(&self, ignore_case: bool) -> (res: String)
        ensures
            res@ == highlight(self@.query, self@.line, ignore_case),
    {
        hg_query(self.query.as_str(), self.line.as_str(), ignore_case)
    }

    /// The line number in its colour: green, or red where `dyn_color` is set
    /// and the line matches.
    pub fn get_formatted_lineno(&self, dyn_color: bool, ignore_case: bool) -> (res: String)
        ensures
            res@ == self@.formatted_lineno(dyn_color, ignore_case),
    {
        let color: &str;
        if dyn_color {
            if self.check_line(ignore_case) == true {
                color = ANSIStyle::FGRed.as_str();
            } else {
                color = ANSIStyle::FGGreen.as_str();
            }
        } else {
            color = ANSIStyle::FGGreen.as_str();
        }
        let mut res = String::new();
        res.append(color);
        res.append(decimal_string(self.lineno as u128).as_str());
        res.append(ANSIStyle::Reset.as_str());
        assert(res@ =~= self@.formatted_lineno(dyn_color, ignore_case));
        res
    }

    /// The line as it is shown. The colour of the line number follows the
    /// match only where `lineno_color` is `Some(true)`.
    pub fn render(&self, lineno_color: Option<bool>, ignore_case: bool) -> (res: String)
        ensures
            res@ == self@.rendered(lineno_color == Some(true), ignore_case),
    {
        let width = decimal_width(self.lineno);
        let void = spaces(VOID.saturating_sub(width));
        let lineno;
        if let Some(true) = lineno_color {
            lineno = self.get_formatted_lineno(true, ignore_case);
        } else {
            lineno = self.get_formatted_lineno(false, ignore_case);
        }
        let mut res = spaces(self.start_at);
        res.append(lineno.as_str());
        res.append(" ");
        res.append(void.as_str());
        res.append(self.get_formatted_line(ignore_case).as_str());
        proof {
            reveal_strlit(" ");
            assert(" "@ =~= seq![' ']);
            assert(res@ =~= self@.rendered(lineno_color == Some(true), ignore_case));
        }
        res
    }
}

} // verus!
