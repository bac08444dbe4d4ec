//! The message with which the program answers a call that it cannot follow.
use vstd::prelude::*;
use vstd::string::StringExecFns;
use crate::help::{get_try, get_usage, try_text, usage_text};
use crate::style::ANSIStyle;

verus! {

/// An error, as the message that tells the user of it.
#[derive(Debug)]
pub struct ErrorMsg {
    msg: String,
}

impl View for ErrorMsg {
    type V = Seq<char>;

    closed spec fn view(&self) -> Seq<char> {
        self.msg@
    }
}

impl DeepView for ErrorMsg {
    type V = Seq<char>;

    open spec fn deep_view(&self) -> Seq<char> {
        self@
    }
}

/// The line that names an error: `Error:` in bold red, and the message.
pub open spec fn error_line(msg: Seq<char>) -> Seq<char> {
    ANSIStyle::FGRed.code() + ANSIStyle::Bold.code() + "Error:"@ + ANSIStyle::Reset.code()
        + " "@ + msg
}

impl ErrorMsg {
    /// An error with the given message.
    pub fn new(msg: String) -> (error: Self)
        ensures
            error@ == msg@,
    {
        Self { msg }
    }

    /// The message of the error.
    pub fn msg(&self) -> (msg: &str)
        ensures
            msg@ == self@,
    {
        self.msg.as_str()
    }

    /// The lines with which the error is reported, in their order: how the
    /// program is called, the hint at the help option, and the error itself.
    pub fn gen_msg(&self) -> (lines: Vec<String>)
        ensures
            lines.deep_view() == seq![usage_text(), try_text(), error_line(self@)],
    {
        let mut error = String::new();
        error.append(ANSIStyle::FGRed.as_str());
        error.append(ANSIStyle::Bold.as_str());
        error.append("Error:");
        error.append(ANSIStyle::Reset.as_str());
        error.append(" ");
        error.append(self.msg.as_str());
        assert(error@ =~= error_line(self@));
        let mut lines: Vec<String> = Vec::new();
        lines.push(get_usage());
        lines.push(get_try());
        lines.push(error);
        assert(lines.deep_view() =~= seq![usage_text(), try_text(), error_line(self@)]);
        lines
    }
}

} // verus!
