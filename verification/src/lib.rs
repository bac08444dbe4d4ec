//! A line-oriented text search: where a query occurs in a line of text, how
//! the matches are highlighted, and how the lines of a file are shown in the
//! three display modes.
//!
//! The library computes; it reads no file and writes nothing. A caller hands
//! it the arguments of a call, what the file system holds at a path, and the
//! lines of a file, and gets back the strings to put out.
//!
//! - [`scan`] is the model of the scanner, [`fold`] the case folding, and
//!   [`spans`] and [`offsets`] tell where an occurrence lies among the bytes
//!   of a text. [`count_query`] and [`find_all`] search a line.
//! - [`style`] highlights the occurrences, and [`roundtrip`] holds what is
//!   proved of taking the highlighting out again.
//! - [`cells`] shows one line, [`rf`] a file, and [`show`] a list of files.
//! - [`plan`] reads the arguments of a call, [`create_rfs`] sorts the paths,
//!   and [`garbage_report`], [`errors`] and [`help`] word what the user is
//!   told.
pub mod cells;
pub mod errors;
pub mod fold;
pub mod help;
pub mod offsets;
pub mod rf;
pub mod roundtrip;
pub mod scan;
pub mod spans;
pub mod style;
pub mod text;

use vstd::prelude::*;
use vstd::string::{StrSliceExecFns, StringExecFns};
use vstd::utf8::encode_utf8;
use crate::errors::ErrorMsg;
use crate::fold::{fold_str, folded};
use crate::offsets::{byte_offset, lemma_byte_offset_bound, offsets};
use crate::rf::{ReadableFile, ReadableFileView};
use crate::scan::{
    count, find, lemma_absent_iff_no_occurrence, lemma_starts_ascending, occurs_at, search_count,
    search_finds, starts,
};
use crate::spans::{lemma_occurrence_width, lemma_spans_apart, reports};
use crate::style::ANSIStyle;
use crate::text::{decimal, decimal_string, str_eq};

verus! {

/// Counts the occurrences of `query` in `text`: those that a scan from left to
/// right meets when it resumes behind each occurrence it finds. The answer is
/// `None`, never `Some(0)`, when there is none; the empty query occurs nowhere.
///
/// With `ignore_case` the folded text is scanned for the folded query.
pub fn count_query(query: &str, text: &str, ignore_case: bool) -> (res: Option<usize>)
    ensures
        res is None <==> !search_finds(query@, text@, ignore_case),
        res is None <==> search_count(query@, text@, ignore_case) == 0,
        res matches Some(c) ==> c == search_count(query@, text@, ignore_case),
{
    let q = fold_str(query, ignore_case);
    let t = fold_str(text, ignore_case);
    proof {
        lemma_absent_iff_no_occurrence(q@, t@);
    }
    let c = count(q.as_slice(), t.as_slice());
    if c > 0 {
        Some(c)
    } else {
        None
    }
}

/// Finds the occurrences of `query` in `text`, each as the byte offset at
/// which it starts and its length in bytes, in ascending order. The offsets
/// are offsets of `text` as it is given, whatever the case mode. The answer is
/// `None`, never an empty vector, when there is no occurrence; the empty query
/// occurs nowhere.
///
/// The scan goes from left to right and resumes behind each occurrence that it
/// finds, so the spans do not overlap. With `ignore_case` the folded text is
/// scanned for the folded query.
pub fn find_all(query: &str, text: &str, ignore_case: bool) -> (res: Option<Vec<(usize, usize)>>)
    ensures
        res is None <==> !search_finds(query@, text@, ignore_case),
        res matches Some(v) ==> reports(v@, query@, text@, ignore_case),
        res matches Some(v) ==> forall|k: int|
            0 <= k < v@.len() ==> {
                &&& 0 < (#[trigger] v@[k]).1
                &&& v@[k].1 == encode_utf8(query@).len()
                &&& v@[k].0 + v@[k].1 <= encode_utf8(text@).len() <= usize::MAX
            },
        res matches Some(v) ==> forall|j: int, k: int|
            0 <= j < k < v@.len() ==> (#[trigger] v@[j]).0 + v@[j].1 <= (#[trigger] v@[k]).0,
{
    let q = fold_str(query, ignore_case);
    let t = fold_str(text, ignore_case);
    let ghost all = starts(q@, t@);
    proof {
        lemma_absent_iff_no_occurrence(q@, t@);
        lemma_starts_ascending(q@, t@, 0);
    }
    let found = find(q.as_slice(), t.as_slice());
    if found.len() == 0 {
        return None;
    }
    let at = offsets(text);
    let n = q.len();
    let mut v: Vec<(usize, usize)> = Vec::new();
    let mut k: usize = 0;
    while k < found.len()
        invariant
            0 <= k <= found@.len(),
            q@ == folded(query@, ignore_case),
            t@ == folded(text@, ignore_case),
            n == query@.len(),
            all == starts(q@, t@),
            found@.len() == all.len(),
            forall|j: int| 0 <= j < found@.len() ==> #[trigger] found@[j] == all[j],
            forall|j: int| 0 <= j < all.len() ==> occurs_at(q@, t@, #[trigger] all[j]),
            at@.len() == text@.len() + 1,
            forall|i: int| 0 <= i <= text@.len() ==> #[trigger] at@[i] == byte_offset(text@, i),
            v@.len() == k,
            forall|j: int|
                0 <= j < k ==> (#[trigger] v@[j]).0 == byte_offset(text@, all[j]) && v@[j].0
                    + v@[j].1 == byte_offset(text@, all[j] + n),
        decreases found@.len() - k,
    {
        let s = found[k];
        proof {
            assert(occurs_at(q@, t@, all[k as int]));
            assert(s + n <= text@.len() < at.len());
            lemma_occurrence_width(query@, text@, ignore_case, s as int);
        }
        v.push((at[s], at[s + n] - at[s]));
        k += 1;
    }
    proof {
        lemma_spans_apart(v@, query@, text@, ignore_case);
        lemma_byte_offset_bound(text@, text@.len() as int);
        assert(at@[text@.len() as int] == encode_utf8(text@).len());
    }
    Some(v)
}

/// What one file shows in a display mode: 0 is the count, 1 the lines that
/// match, 2 the whole page.
pub open spec fn file_output(file: ReadableFileView, lines: Seq<Seq<char>>, mode: int) -> Seq<
    Seq<char>,
> {
    if mode == 0 {
        file.count_output(lines)
    } else if mode == 1 {
        file.cells_output(lines)
    } else {
        file.page_output(lines)
    }
}

/// What the first `upto` files show, one file behind the other. Each file
/// comes with its lines.
pub open spec fn shown(
    sources: Seq<(ReadableFileView, Seq<Seq<char>>)>,
    mode: int,
    upto: int,
) -> Seq<Seq<char>>
    decreases upto,
{
    if upto <= 0 {
        Seq::empty()
    } else {
        shown(sources, mode, upto - 1) + file_output(
            sources[upto - 1].0,
            sources[upto - 1].1,
            mode,
        )
    }
}

/// Showing a file over the same lines in the same mode gives the same
/// output, time after time.
pub proof fn lemma_display_repeats(
    file: ReadableFileView,
    lines: Seq<Seq<char>>,
    mode: int,
    first: Seq<Seq<char>>,
    second: Seq<Seq<char>>,
)
    requires
        first == file_output(file, lines, mode),
        second == file_output(file, lines, mode),
    ensures
        first == second,
{
}

/// Shows the files in the given display mode, in their order. Each file
/// comes with its lines, and the answer holds the strings to put out. The
/// mode is 0 for the count, 1 for the lines that match, 2 for the whole page;
/// there is no other.
pub fn show(sources: &Vec<(ReadableFile, Vec<String>)>, mode: usize) -> (out: Vec<String>)
    requires
        mode <= 2,
    ensures
        out.deep_view() == shown(sources.deep_view(), mode as int, sources@.len() as int),
{
    let mut out: Vec<String> = Vec::new();
    let mut i: usize = 0;
    assert(out.deep_view() =~= shown(sources.deep_view(), mode as int, 0));
    while i < sources.len()
        invariant
            mode <= 2,
            0 <= i <= sources@.len(),
            out.deep_view() == shown(sources.deep_view(), mode as int, i as int),
        decreases sources@.len() - i,
    {
        let file = &sources[i].0;
        let lines = &sources[i].1;
        let mut part = if mode == 0 {
            file.render_count(lines)
        } else if mode == 1 {
            file.render_cells(lines)
        } else {
            file.render_page(lines)
        };
        let ghost before = out.deep_view();
        let ghost added = part.deep_view();
        assert(added == file_output(
            sources.deep_view()[i as int].0,
            sources.deep_view()[i as int].1,
            mode as int,
        ));
        out.append(&mut part);
        assert(out.deep_view() =~= before + added);
        i += 1;
    }
    out
}

/// The message for a path at which nothing is found.
pub open spec fn missing_msg(file: Seq<char>) -> Seq<char> {
    "File "@ + ANSIStyle::Italic.code() + ANSIStyle::FGWhite.code() + "'"@ + file + "'"@
        + ANSIStyle::Reset.code() + " does not exist."@
}

/// The message for a path at which something other than a file is found.
pub open spec fn not_a_file_msg(file: Seq<char>) -> Seq<char> {
    "Path "@ + ANSIStyle::Italic.code() + ANSIStyle::FGWhite.code() + "'"@ + file + "'"@
        + ANSIStyle::Reset.code() + " is not a file."@
}

/// What becomes of a path: the path itself where a file is found at it, and
/// the message that says what is wrong where not.
pub open spec fn checked(file: Seq<char>, exists: bool, is_file: bool) -> Result<
    Seq<char>,
    Seq<char>,
> {
    if !exists {
        Err(missing_msg(file))
    } else if !is_file {
        Err(not_a_file_msg(file))
    } else {
        Ok(file)
    }
}

/// Accepts the path `file` where it leads to a file. The caller says what
/// the file system holds there: `exists`, whether anything is found at the
/// path, and `is_file`, whether that is a file.
pub fn check_file(file: &str, exists: bool, is_file: bool) -> (res: Result<String, ErrorMsg>)
    ensures
        match res {
            Ok(path) => checked(file@, exists, is_file) == Ok::<Seq<char>, Seq<char>>(path@),
            Err(error) => checked(file@, exists, is_file) == Err::<Seq<char>, Seq<char>>(error@),
        },
{
    if !exists {
        let mut msg = String::new();
        msg.append("File ");
        msg.append(ANSIStyle::Italic.as_str());
        msg.append(ANSIStyle::FGWhite.as_str());
        msg.append("'");
        msg.append(file);
        msg.append("'");
        msg.append(ANSIStyle::Reset.as_str());
        msg.append(" does not exist.");
        assert(msg@ =~= missing_msg(file@));
        return Err(ErrorMsg::new(msg));
    }
    if !is_file {
        let mut msg = String::new();
        msg.append("Path ");
        msg.append(ANSIStyle::Italic.as_str());
        msg.append(ANSIStyle::FGWhite.as_str());
        msg.append("'");
        msg.append(file);
        msg.append("'");
        msg.append(ANSIStyle::Reset.as_str());
        msg.append(" is not a file.");
        assert(msg@ =~= not_a_file_msg(file@));
        return Err(ErrorMsg::new(msg));
    }
    Ok(file.to_owned())
}

/// What becomes of a path in a search: the file to search where a file is
/// found at it, and the message that says what is wrong where not.
pub open spec fn created(
    file: Seq<char>,
    query: Seq<char>,
    ignore_case: bool,
    exists: bool,
    is_file: bool,
) -> Result<ReadableFileView, Seq<char>> {
    match checked(file, exists, is_file) {
        Ok(path) => Ok(ReadableFileView { path, query, ignore_case }),
        Err(msg) => Err(msg),
    }
}

/// Makes the file to search of a path that `check_file` accepts.
pub fn create_rf(file: &str, query: &str, ignore_case: bool, exists: bool, is_file: bool) -> (res:
    Result<ReadableFile, ErrorMsg>)
    ensures
        match res {
            Ok(rf) => created(file@, query@, ignore_case, exists, is_file) == Ok::<
                ReadableFileView,
                Seq<char>,
            >(rf@),
            Err(error) => created(file@, query@, ignore_case, exists, is_file) == Err::<
                ReadableFileView,
                Seq<char>,
            >(error@),
        },
{
    match check_file(file, exists, is_file) {
        Ok(f) => {
            let rf = ReadableFile::new(f, query.to_owned(), ignore_case);
            Ok(rf)
        },
        Err(e) => Err(e),
    }
}

/// The files to search among the first `upto` paths, in the order of the
/// paths: one for each path at which a file is found. Each path comes with
/// what the file system holds there: whether anything is found at it, and
/// whether that is a file.
pub open spec fn accepted(
    paths: Seq<(Seq<char>, bool, bool)>,
    query: Seq<char>,
    ignore_case: bool,
    upto: int,
) -> Seq<ReadableFileView>
    decreases upto,
{
    if upto <= 0 {
        Seq::empty()
    } else {
        let before = accepted(paths, query, ignore_case, upto - 1);
        let (file, exists, is_file) = paths[upto - 1];
        match created(file, query, ignore_case, exists, is_file) {
            Ok(rf) => before.push(rf),
            Err(_) => before,
        }
    }
}

/// The messages for those of the first `upto` paths at which no file is
/// found, in the order of the paths.
pub open spec fn refused(paths: Seq<(Seq<char>, bool, bool)>, upto: int) -> Seq<Seq<char>>
    decreases upto,
{
    if upto <= 0 {
        Seq::empty()
    } else {
        let before = refused(paths, upto - 1);
        let (file, exists, is_file) = paths[upto - 1];
        match checked(file, exists, is_file) {
            Ok(_) => before,
            Err(msg) => before.push(msg),
        }
    }
}

/// Sorts the paths of a search into the files to search and the errors to
/// report, each in the order of the paths. Each path comes with what the
/// file system holds there, as `check_file` takes it.
pub fn create_rfs(paths: &Vec<(String, bool, bool)>, query: &str, ignore_case: bool) -> (res: (
    Vec<ReadableFile>,
    Vec<ErrorMsg>,
))
    ensures
        res.0.deep_view() == accepted(
            paths.deep_view(),
            query@,
            ignore_case,
            paths@.len() as int,
        ),
        res.1.deep_view() == refused(paths.deep_view(), paths@.len() as int),
{
    let mut output: Vec<ReadableFile> = Vec::new();
    let mut gr: Vec<ErrorMsg> = Vec::new();
    let mut i: usize = 0;
    assert(output.deep_view() =~= accepted(paths.deep_view(), query@, ignore_case, 0));
    assert(gr.deep_view() =~= refused(paths.deep_view(), 0));
    while i < paths.len()
        invariant
            0 <= i <= paths@.len(),
            output.deep_view() == accepted(paths.deep_view(), query@, ignore_case, i as int),
            gr.deep_view() == refused(paths.deep_view(), i as int),
        decreases paths@.len() - i,
    {
        let file = paths[i].0.as_str();
        let ghost before_output = output.deep_view();
        let ghost before_gr = gr.deep_view();
        assert(paths.deep_view()[i as int] == (file@, paths@[i as int].1, paths@[i as int].2));
        match create_rf(file, query, ignore_case, paths[i].1, paths[i].2) {
            Ok(f) => {
                output.push(f);
                assert(output.deep_view() =~= before_output.push(f@));
            },
            Err(e) => {
                gr.push(e);
                assert(gr.deep_view() =~= before_gr.push(e@));
            },
        }
        i += 1;
    }
    (output, gr)
}

/// The first line of the report of errors.
pub open spec fn report_heading() -> Seq<char> {
    "\n"@ + ANSIStyle::Bold.code() + ANSIStyle::FGRed.code() + "* Errors Report: "@
        + ANSIStyle::Reset.code()
}

/// The line of the error with index `i` in the report: a branch, which for
/// the last error is the closing one, the number of the error counted from
/// one, and its message.
pub open spec fn report_entry(errors: Seq<Seq<char>>, i: int) -> Seq<char> {
    ANSIStyle::FGRed.code() + (if i == errors.len() - 1 {
        "└──"@
    } else {
        "├──"@
    }) + "["@ + decimal((i + 1) as nat) + "]"@ + ANSIStyle::Reset.code() + " "@ + errors[i]
}

/// The report of the errors: its first line, then one line for each error.
pub open spec fn report(errors: Seq<Seq<char>>) -> Seq<Seq<char>> {
    seq![report_heading()] + Seq::new(errors.len(), |i: int| report_entry(errors, i))
}

/// The lines that report the paths that could not be searched, in the order
/// of the errors.
pub fn garbage_report(gr: &Vec<ErrorMsg>) -> (lines: Vec<String>)
    ensures
        lines.deep_view() == report(gr.deep_view()),
{
    let gr_len = gr.len();
    let mut heading = String::new();
    heading.append("\n");
    heading.append(ANSIStyle::Bold.as_str());
    heading.append(ANSIStyle::FGRed.as_str());
    heading.append("* Errors Report: ");
    heading.append(ANSIStyle::Reset.as_str());
    assert(heading@ =~= report_heading());
    let mut lines: Vec<String> = Vec::new();
    lines.push(heading);
    let ghost errors = gr.deep_view();
    assert(lines.deep_view() =~= seq![report_heading()]);
    let mut i: usize = 0;
    while i < gr_len
        invariant
            gr_len == gr@.len(),
            errors == gr.deep_view(),
            0 <= i <= gr_len,
            lines.deep_view() == seq![report_heading()] + Seq::new(
                i as nat,
                |j: int| report_entry(errors, j),
            ),
        decreases gr_len - i,
    {
        let br = if i == gr_len - 1 {
            "└──"
        } else {
            "├──"
        };
        let mut line = String::new();
        line.append(ANSIStyle::FGRed.as_str());
        line.append(br);
        line.append("[");
        line.append(decimal_string((i + 1) as u128).as_str());
        line.append("]");
        line.append(ANSIStyle::Reset.as_str());
        line.append(" ");
        line.append(gr[i].msg());
        assert(line@ =~= report_entry(errors, i as int));
        let ghost before = lines.deep_view();
        lines.push(line);
        assert(lines.deep_view() =~= before.push(report_entry(errors, i as int)));
        assert(lines.deep_view() =~= seq![report_heading()] + Seq::new(
            (i + 1) as nat,
            |j: int| report_entry(errors, j),
        ));
        i += 1;
    }
    lines
}

/// What a call of the program asks for.
#[derive(Debug)]
pub enum Plan {
    /// Show the help text.
    Help,
    /// Show the version.
    Version,
    /// Refuse the call with this error.
    Refuse(ErrorMsg),
    /// Search the files at these paths for the query, and show them in the
    /// display mode: 0 is the count, 1 the lines that match, 2 the whole page.
    Search { query: String, files: Vec<String>, ignore_case: bool, mode: usize },
}

/// What a plan stands for.
pub enum PlanView {
    Help,
    Version,
    Refuse(Seq<char>),
    Search { query: Seq<char>, files: Seq<Seq<char>>, ignore_case: bool, mode: nat },
}

impl View for Plan {
    type V = PlanView;

    open spec fn view(&self) -> PlanView {
        match self {
            Plan::Help => PlanView::Help,
            Plan::Version => PlanView::Version,
            Plan::Refuse(error) => PlanView::Refuse(error@),
            Plan::Search { query, files, ignore_case, mode } => PlanView::Search {
                query: query@,
                files: files.deep_view(),
                ignore_case: *ignore_case,
                mode: *mode as nat,
            },
        }
    }
}

/// The argument is written as an option: it begins with a hyphen.
pub open spec fn is_option(arg: Seq<char>) -> bool {
    arg.len() > 0 && arg[0] == '-'
}

/// The error for an option that stands alone and is neither the help nor the
/// version option.
pub open spec fn lone_option_msg() -> Seq<char> {
    "Only two options '-h, --help' and '-v, --version' are accepted without any arguments."@
}

/// The error for a call with fewer than two arguments.
pub open spec fn too_few_msg() -> Seq<char> {
    "At least two arguments are expected."@
}

/// The error for an option that the program does not know.
pub open spec fn bad_option_msg(option: Seq<char>) -> Seq<char> {
    "This option is not valid: "@ + ANSIStyle::Italic.code() + ANSIStyle::FGWhite.code() + "'"@
        + option + "'"@ + ANSIStyle::Reset.code() + "."@
}

/// What the arguments of a call ask for. A single argument that is written
/// as an option asks for the help text or the version. Otherwise the first
/// argument is the query and the others are paths, but for the last where it
/// is written as an option: that one picks the count, the page or the search
/// without regard to case. Without it the lines that match are shown, found
/// with regard to case.
pub open spec fn planned(args: Seq<Seq<char>>) -> PlanView {
    if args.len() == 1 && is_option(args[0]) {
        if args[0] == "-h"@ || args[0] == "--help"@ {
            PlanView::Help
        } else if args[0] == "-v"@ || args[0] == "--version"@ {
            PlanView::Version
        } else {
            PlanView::Refuse(lone_option_msg())
        }
    } else if args.len() < 2 {
        PlanView::Refuse(too_few_msg())
    } else if !is_option(args.last()) {
        PlanView::Search {
            query: args[0],
            files: args.subrange(1, args.len() as int),
            ignore_case: false,
            mode: 1,
        }
    } else {
        let option = args.last();
        let files = args.subrange(1, args.len() - 1);
        if option == "-c"@ || option == "--count"@ {
            PlanView::Search { query: args[0], files, ignore_case: false, mode: 0 }
        } else if option == "-p"@ || option == "--page-view"@ {
            PlanView::Search { query: args[0], files, ignore_case: false, mode: 2 }
        } else if option == "-i"@ || option == "--ignore-case"@ {
            PlanView::Search { query: args[0], files, ignore_case: true, mode: 1 }
        } else {
            PlanView::Refuse(bad_option_msg(option))
        }
    }
}

/// Tells whether the argument is written as an option.
pub fn starts_with_hyphen(arg: &str) -> (res: bool)
    ensures
        res == is_option(arg@),
{
    !arg.is_empty() && arg.get_char(0) == '-'
}

/// Copies the strings of `args` from index `from` up to, not including,
/// index `to`.
fn copy_range(args: &Vec<String>, from: usize, to: usize) -> (res: Vec<String>)
    requires
        from <= to <= args@.len(),
    ensures
        res.deep_view() == args.deep_view().subrange(from as int, to as int),
{
    let mut res: Vec<String> = Vec::new();
    let mut i: usize = from;
    assert(res.deep_view() =~= args.deep_view().subrange(from as int, from as int));
    while i < to
        invariant
            from <= i <= to <= args@.len(),
            res.deep_view() == args.deep_view().subrange(from as int, i as int),
        decreases to - i,
    {
        let ghost before = res.deep_view();
        res.push(args[i].clone());
        assert(res.deep_view() =~= before.push(args@[i as int]@));
        assert(res.deep_view() =~= args.deep_view().subrange(from as int, i + 1));
        i += 1;
    }
    res
}

/// Reads the arguments of a call, those behind the name of the program, and
/// says what the call asks for.
pub fn plan(args: &Vec<String>) -> (res: Plan)
    ensures
        res@ == planned(args.deep_view()),
{
    let alen = args.len();
    if alen == 1 && starts_with_hyphen(args[0].as_str()) {
        let opt = args[0].as_str();
        if str_eq(opt, "-h") || str_eq(opt, "--help") {
            return Plan::Help;
        } else if str_eq(opt, "-v") || str_eq(opt, "--version") {
            return Plan::Version;
        } else {
            let msg = String::from_str(
                "Only two options '-h, --help' and '-v, --version' are accepted without any arguments.",
            );
            return Plan::Refuse(ErrorMsg::new(msg));
        }
    }
    if alen < 2 {
        let msg = String::from_str("At least two arguments are expected.");
        return Plan::Refuse(ErrorMsg::new(msg));
    }
    let query = args[0].clone();
    let opt = args[alen - 1].as_str();
    assert(args.deep_view().last() == opt@);
    if !starts_with_hyphen(opt) {
        let files = copy_range(args, 1, alen);
        return Plan::Search { query, files, ignore_case: false, mode: 1 };
    }
    if str_eq(opt, "-c") || str_eq(opt, "--count") {
        let files = copy_range(args, 1, alen - 1);
        Plan::Search { query, files, ignore_case: false, mode: 0 }
    } else if str_eq(opt, "-p") || str_eq(opt, "--page-view") {
        let files = copy_range(args, 1, alen - 1);
        Plan::Search { query, files, ignore_case: false, mode: 2 }
    } else if str_eq(opt, "-i") || str_eq(opt, "--ignore-case") {
        let files = copy_range(args, 1, alen - 1);
        Plan::Search { query, files, ignore_case: true, mode: 1 }
    } else {
        let mut msg = String::new();
        msg.append("This option is not valid: ");
        msg.append(ANSIStyle::Italic.as_str());
        msg.append(ANSIStyle::FGWhite.as_str());
        msg.append("'");
        msg.append(opt);
        msg.append("'");
        msg.append(ANSIStyle::Reset.as_str());
        msg.append(".");
        assert(msg@ =~= bad_option_msg(opt@));
        Plan::Refuse(ErrorMsg::new(msg))
    }
}

} // verus!
