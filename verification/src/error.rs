//! Why a log line could not be read, and where it stands in the log.
use vstd::prelude::*;
use crate::text::decimal;
use crate::text::push_decimal;

verus! {

/// What is wrong with a log line.
pub enum ParseErrorSource {
    /// A line of the dpkg log was handed to the reader of the apt history.
    DpkgLogForAptHistoryEvent,
    /// A line of the apt history was handed to the reader of the dpkg log.
    AptHistoryLogForDpkgEvent,
    /// The command of an apt history line is none of `apt`, `apt-get` and
    /// `aptdaemon`.
    UnknownCommand(String),
    /// An apt command line holds nothing after the command.
    NoAptAction,
    /// The action of an apt command is none of `autoremove`, `install`,
    /// `reinstall` and `remove`.
    UnknownAptAction(String),
    /// `autoremove` is followed by further arguments.
    AutoremoveWithArguments,
    /// A flag comes after the first package.
    FlagAfterPackages(String),
    /// A flag other than `-y` and `--yes` comes before the packages.
    UnknownFlag(String),
    /// A dpkg log line matches neither the status pattern nor the startup
    /// pattern.
    NoDpkgRule,
    /// A pattern of this library did not compile.
    InvalidPattern,
}

/// The value a `ParseErrorSource` stands for, texts taken as characters.
pub enum SourceView {
    DpkgLogForAptHistoryEvent,
    AptHistoryLogForDpkgEvent,
    UnknownCommand(Seq<char>),
    NoAptAction,
    UnknownAptAction(Seq<char>),
    AutoremoveWithArguments,
    FlagAfterPackages(Seq<char>),
    UnknownFlag(Seq<char>),
    NoDpkgRule,
    InvalidPattern,
}

impl View for ParseErrorSource {
    type V = SourceView;

    open spec fn view(&self) -> SourceView {
        match self {
            ParseErrorSource::DpkgLogForAptHistoryEvent => SourceView::DpkgLogForAptHistoryEvent,
            ParseErrorSource::AptHistoryLogForDpkgEvent => SourceView::AptHistoryLogForDpkgEvent,
            ParseErrorSource::UnknownCommand(s) => SourceView::UnknownCommand(s@),
            ParseErrorSource::NoAptAction => SourceView::NoAptAction,
            ParseErrorSource::UnknownAptAction(s) => SourceView::UnknownAptAction(s@),
            ParseErrorSource::AutoremoveWithArguments => SourceView::AutoremoveWithArguments,
            ParseErrorSource::FlagAfterPackages(s) => SourceView::FlagAfterPackages(s@),
            ParseErrorSource::UnknownFlag(s) => SourceView::UnknownFlag(s@),
            ParseErrorSource::NoDpkgRule => SourceView::NoDpkgRule,
            ParseErrorSource::InvalidPattern => SourceView::InvalidPattern,
        }
    }
}

/// The message that describes each fault.
pub open spec fn message_text(v: SourceView) -> Seq<char> {
    match v {
        SourceView::DpkgLogForAptHistoryEvent =>
            "The vector of InstallationStatus is not implemented for LogType::GreppedDpkgLog, only an atomic InstallationStatus allowed"@,
        SourceView::AptHistoryLogForDpkgEvent =>
            "An atomic InstallationStatus is not implemented for LogType::AptHistoryGzip, only the vector of InstallationStatus allowed"@,
        SourceView::UnknownCommand(c) => "Here is an unknown command: "@ + c,
        SourceView::NoAptAction => "There are no any arguments after command"@,
        SourceView::UnknownAptAction(a) => "apt or apt-get action is unknown, action: "@ + a,
        SourceView::AutoremoveWithArguments => "Autoremove arguments count is not equal to 1"@,
        SourceView::FlagAfterPackages(f) =>
            "Flags are no longer expected when positional arguments was started, but a flag was encountered.\nThe flag: "@
                + f,
        SourceView::UnknownFlag(f) => "Here is an unknown flag: "@ + f,
        SourceView::NoDpkgRule => "The is no rule to parse the line."@,
        SourceView::InvalidPattern => "A pattern of the log reader does not compile."@,
    }
}

impl ParseErrorSource {
    /// The message that describes the fault.
    pub fn error_message(&self) -> (s: String)
        ensures
            s@ == message_text(self@),
    {
        let mut s = String::new();
        match self {
            ParseErrorSource::DpkgLogForAptHistoryEvent => {
                s.append(
                    "The vector of InstallationStatus is not implemented for LogType::GreppedDpkgLog, only an atomic InstallationStatus allowed",
                );
            },
            ParseErrorSource::AptHistoryLogForDpkgEvent => {
                s.append(
                    "An atomic InstallationStatus is not implemented for LogType::AptHistoryGzip, only the vector of InstallationStatus allowed",
                );
            },
            ParseErrorSource::UnknownCommand(c) => {
                s.append("Here is an unknown command: ");
                s.append(c.as_str());
            },
            ParseErrorSource::NoAptAction => {
                s.append("There are no any arguments after command");
            },
            ParseErrorSource::UnknownAptAction(a) => {
                s.append("apt or apt-get action is unknown, action: ");
                s.append(a.as_str());
            },
            ParseErrorSource::AutoremoveWithArguments => {
                s.append("Autoremove arguments count is not equal to 1");
            },
            ParseErrorSource::FlagAfterPackages(f) => {
                s.append(
                    "Flags are no longer expected when positional arguments was started, but a flag was encountered.\nThe flag: ",
                );
                s.append(f.as_str());
            },
            ParseErrorSource::UnknownFlag(f) => {
                s.append("Here is an unknown flag: ");
                s.append(f.as_str());
            },
            ParseErrorSource::NoDpkgRule => {
                s.append("The is no rule to parse the line.");
            },
            ParseErrorSource::InvalidPattern => {
                s.append("A pattern of the log reader does not compile.");
            },
        }
        s
    }
}

/// A log line that could not be read: the fault, the line's number within
/// the lines read, and the line.
pub struct ParseError {
    pub source: ParseErrorSource,
    pub line_number: usize,
    pub line: String,
}

impl ParseError {
    /// The error for `line`, its number not yet known (`usize::MAX`).
    pub fn from(source: ParseErrorSource, line: &str) -> (e: ParseError)
        ensures
            e.source == source,
            e.line@ == line@,
            e.line_number == usize::MAX,
    {
        ParseError { source, line: line.to_owned(), line_number: usize::MAX }
    }

    /// Sets the number of the line.
    pub fn set_line_number(&mut self, line_number: usize)
        ensures
            final(self).line_number == line_number,
            final(self).source == old(self).source,
            final(self).line == old(self).line,
    {
        self.line_number = line_number;
    }

    /// The report of the error: the message of the fault, the line number and
    /// the line.
    pub fn message(&self) -> (s: String)
        ensures
            s@ == message_text(self.source@) + ",\nline_number: "@ + decimal(
                self.line_number as nat,
            ) + ",\n line:\n"@ + self.line@ + "\n"@,
    {
        let mut s = self.source.error_message();
        s.append(",\nline_number: ");
        push_decimal(&mut s, self.line_number as u128);
        s.append(",\n line:\n");
        s.append(self.line.as_str());
        s.append("\n");
        s
    }
}

} // verus!
