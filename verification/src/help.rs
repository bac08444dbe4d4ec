//! The help text of the program: how it is called, what it does, and its
//! options.
use vstd::prelude::*;
use vstd::string::StringExecFns;
use vstd::utf8::{encode_utf8, is_ascii_chars, is_ascii_chars_encode_utf8};
use crate::style::ANSIStyle;
use crate::text::{blanks, spaces};

verus! {

/// The width of the column that holds the name of an option and the gap
/// behind it.
pub const VOID: usize = 25;

/// An option of the program: how it is written, and what it does.
#[derive(Debug)]
pub struct CLIOption<'a> {
    name: &'a str,
    desc: &'a str,
}

/// What an option stands for.
pub struct CLIOptionView {
    pub name: Seq<char>,
    pub desc: Seq<char>,
}

impl<'a> View for CLIOption<'a> {
    type V = CLIOptionView;

    closed spec fn view(&self) -> CLIOptionView {
        CLIOptionView { name: self.name@, desc: self.desc@ }
    }
}

impl CLIOptionView {
    /// The name is no wider than its column.
    pub open spec fn fits(self) -> bool {
        encode_utf8(self.name).len() <= VOID
    }

    /// The line of the option in the help text: two blanks, the name, the
    /// blanks that fill the column up, and the description.
    pub open spec fn rendered(self) -> Seq<char> {
        seq![' ', ' '] + self.name + blanks((VOID - encode_utf8(self.name).len()) as nat)
            + self.desc
    }
}

impl<'a> CLIOption<'a> {
    /// An option with the given name and description.
    pub fn new(name: &'a str, desc: &'a str) -> (option: Self)
        ensures
            option@ == (CLIOptionView { name: name@, desc: desc@ }),
    {
        Self { name, desc }
    }
}

/// What a list of options stands for.
pub open spec fn option_views(options: Seq<CLIOption<'_>>) -> Seq<CLIOptionView> {
    Seq::new(options.len(), |i: int| options[i]@)
}

/// The help text in its parts.
#[derive(Debug)]
pub struct HelpMessage<'a> {
    desc: String,
    usage: String,
    options: Vec<CLIOption<'a>>,
}

/// What a help text stands for.
pub struct HelpMessageView {
    pub desc: Seq<char>,
    pub usage: Seq<char>,
    pub options: Seq<CLIOptionView>,
}

impl<'a> View for HelpMessage<'a> {
    type V = HelpMessageView;

    closed spec fn view(&self) -> HelpMessageView {
        HelpMessageView {
            desc: self.desc@,
            usage: self.usage@,
            options: option_views(self.options@),
        }
    }
}

impl HelpMessageView {
    /// Every option's name is no wider than its column.
    pub open spec fn fits(self) -> bool {
        forall|i: int| 0 <= i < self.options.len() ==> (#[trigger] self.options[i]).fits()
    }

    /// The heading of the list of options.
    pub open spec fn heading() -> Seq<char> {
        ANSIStyle::FGGreen.code() + "Options:"@ + ANSIStyle::Reset.code()
    }

    /// The lines of the help text: the usage, the description, the heading,
    /// and one line for each option.
    pub open spec fn rendered(self) -> Seq<Seq<char>> {
        seq![self.usage, self.desc, Self::heading()] + Seq::new(
            self.options.len(),
            |i: int| self.options[i].rendered(),
        )
    }
}

impl<'a> HelpMessage<'a> {
    /// A help text of the given parts.
    pub fn new(desc: String, usage: String, options: Vec<CLIOption<'a>>) -> (help: Self)
        ensures
            help@ == (HelpMessageView {
                desc: desc@,
                usage: usage@,
                options: option_views(options@),
            }),
    {
        Self { desc, usage, options }
    }

    /// The options of the help text, or `None` where it has none.
    pub fn options(&self) -> (res: Option<&Vec<CLIOption<'a>>>)
        ensures
            res is None <==> self@.options.len() == 0,
            res matches Some(list) ==> option_views(list@) == self@.options,
    {
        if !self.options.is_empty() {
            Some(&self.options)
        } else {
            None
        }
    }

    /// Tells whether the name of every option is no wider than its column.
    pub fn fits(&self) -> (res: bool)
        ensures
            res == self@.fits(),
    {
        let mut i: usize = 0;
        while i < self.options.len()
            invariant
                0 <= i <= self.options@.len(),
                forall|j: int| 0 <= j < i ==> (#[trigger] self@.options[j]).fits(),
            decreases self.options@.len() - i,
        {
            if self.options[i].name.as_bytes().len() > VOID {
                assert(!self@.options[i as int].fits());
                return false;
            }
            i += 1;
        }
        true
    }

    /// The lines of the help text, in the order in which they are shown.
    /// Every name has to fit its column: there is no line for one that does
    /// not.
    pub fn render(&self) -> (lines: Vec<String>)
        requires
            self@.fits(),
        ensures
            lines.deep_view() == self@.rendered(),
    {
        let mut lines: Vec<String> = Vec::new();
        lines.push(self.usage.clone());
        lines.push(self.desc.clone());
        let mut heading = String::new();
        heading.append(ANSIStyle::FGGreen.as_str());
        heading.append("Options:");
        heading.append(ANSIStyle::Reset.as_str());
        lines.push(heading);
        assert(lines.deep_view() =~= seq![self@.usage, self@.desc, HelpMessageView::heading()]);
        let mut i: usize = 0;
        while i < self.options.len()
            invariant
                0 <= i <= self.options@.len(),
                self@.fits(),
                lines.deep_view() == seq![self@.usage, self@.desc, HelpMessageView::heading()]
                    + Seq::new(i as nat, |j: int| self@.options[j].rendered()),
            decreases self.options@.len() - i,
        {
            let option = &self.options[i];
            assert(option@ == self@.options[i as int]);
            assert(self@.options[i as int].fits());
            let space = spaces(VOID - option.name.len());
            let mut line = String::new();
            line.append("  ");
            line.append(option.name);
            line.append(space.as_str());
            line.append(option.desc);
            proof {
                reveal_strlit("  ");
                assert("  "@ =~= seq![' ', ' ']);
                assert(line@ =~= option@.rendered());
            }
            let ghost before = lines.deep_view();
            lines.push(line);
            assert(lines.deep_view() =~= before.push(option@.rendered()));
            assert(lines.deep_view() =~= seq![
                self@.usage,
                self@.desc,
                HelpMessageView::heading(),
            ] + Seq::new((i + 1) as nat, |j: int| self@.options[j].rendered()));
            i += 1;
        }
        lines
    }
}

/// How the program is called.
pub open spec fn usage_text() -> Seq<char> {
    ANSIStyle::FGGreen.code() + "Usage:"@ + ANSIStyle::Reset.code()
        + " lenz [QUERY] [FILEs]... [OPTION]"@
}

/// The hint at the help option.
pub open spec fn try_text() -> Seq<char> {
    "Try "@ + ANSIStyle::FGWhite.code() + ANSIStyle::Italic.code() + "'lenz --help'"@
        + ANSIStyle::Reset.code() + " for help.\n"@
}

/// What the program does.
pub open spec fn desc_text() -> Seq<char> {
    "\n  Lenz is a simple CLI for browsing files to find words.\n"@
}

/// The options of the program, in the order of the help text.
pub open spec fn help_options() -> Seq<CLIOptionView> {
    seq![
        CLIOptionView { name: "-i, --ignore-case"@, desc: "Perform case insensitive matching."@ },
        CLIOptionView { name: "-c, --count"@, desc: "Counting matches in files."@ },
        CLIOptionView { name: "-p, --page-view"@, desc: "Page view."@ },
        CLIOptionView { name: "-h, --help"@, desc: "Show this message and exit."@ },
        CLIOptionView { name: "-v, --version"@, desc: "Display version and exit."@ },
    ]
}

/// The line that says how the program is called.
pub fn get_usage() -> (res: String)
    ensures
        res@ == usage_text(),
{
    let mut res = String::new();
    res.append(ANSIStyle::FGGreen.as_str());
    res.append("Usage:");
    res.append(ANSIStyle::Reset.as_str());
    res.append(" lenz [QUERY] [FILEs]... [OPTION]");
    res
}

/// The line that hints at the help option.
pub fn get_try() -> (res: String)
    ensures
        res@ == try_text(),
{
    let mut res = String::new();
    res.append("Try ");
    res.append(ANSIStyle::FGWhite.as_str());
    res.append(ANSIStyle::Italic.as_str());
    res.append("'lenz --help'");
    res.append(ANSIStyle::Reset.as_str());
    res.append(" for help.\n");
    assert(res@ =~= try_text());
    res
}

/// The lines that say what the program does.
pub fn get_desc() -> (res: String)
    ensures
        res@ == desc_text(),
{
    String::from_str("\n  Lenz is a simple CLI for browsing files to find words.\n")
}

/// The help text of the program.
pub fn get_help() -> (help: HelpMessage<'static>)
    ensures
        help@ == (HelpMessageView {
            desc: desc_text(),
            usage: usage_text(),
            options: help_options(),
        }),
        help@.fits(),
{
    let mut options: Vec<CLIOption<'static>> = Vec::new();
    options.push(CLIOption::new("-i, --ignore-case", "Perform case insensitive matching."));
    options.push(CLIOption::new("-c, --count", "Counting matches in files."));
    options.push(CLIOption::new("-p, --page-view", "Page view."));
    options.push(CLIOption::new("-h, --help", "Show this message and exit."));
    options.push(CLIOption::new("-v, --version", "Display version and exit."));
    let help = HelpMessage::new(get_desc(), get_usage(), options);
    proof {
        assert(help@.options =~= help_options());
        reveal_strlit("-i, --ignore-case");
        reveal_strlit("-c, --count");
        reveal_strlit("-p, --page-view");
        reveal_strlit("-h, --help");
        reveal_strlit("-v, --version");
        assert(is_ascii_chars("-i, --ignore-case"@));
        assert(is_ascii_chars("-c, --count"@));
        assert(is_ascii_chars("-p, --page-view"@));
        assert(is_ascii_chars("-h, --help"@));
        assert(is_ascii_chars("-v, --version"@));
        is_ascii_chars_encode_utf8("-i, --ignore-case"@);
        is_ascii_chars_encode_utf8("-c, --count"@);
        is_ascii_chars_encode_utf8("-p, --page-view"@);
        is_ascii_chars_encode_utf8("-h, --help"@);
        is_ascii_chars_encode_utf8("-v, --version"@);
    }
    help
}

} // verus!
