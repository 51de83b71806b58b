//! The lines of the server's log.
//!
//! A line reads `[stamp] LEVEL message`, the stamp being the local time as
//! `MM-DD-YYYY HH:MM:SS`. The logger formats the lines and keeps them in
//! the order in which they were logged until its owner takes them away to
//! write them out.

use vstd::prelude::*;

verus! {

/// The level of a line of the log.
#[derive(Debug, Clone, Copy, PartialEq, Eq, Structural)]
pub enum Header {
    SUCCESS,
    INFO,
    WARNING,
    ERROR,
    DEBUG,
}

impl Header {
    /// The word that stands for the level in a line.
    pub open spec fn label(self) -> Seq<char> {
        match self {
            Header::SUCCESS => "SUCCESS"@,
            Header::INFO => "INFO"@,
            Header::WARNING => "WARNING"@,
            Header::ERROR => "ERROR"@,
            Header::DEBUG => "DEBUG"@,
        }
    }

    /// The word that stands for the level in a line.
    pub fn as_str(&self) -> (word: &'static str)
        ensures
            word@ == self.label(),
    {
        match self {
            Header::SUCCESS => "SUCCESS",
            Header::INFO => "INFO",
            Header::WARNING => "WARNING",
            Header::ERROR => "ERROR",
            Header::DEBUG => "DEBUG",
        }
    }
}

/// The line of the log for a message of the given level at the given time.
pub open spec fn log_line(stamp: Seq<char>, header: Header, message: Seq<char>) -> Seq<char> {
    "["@ + stamp + "] "@ + header.label() + " "@ + message
}

/// The texts of a sequence of lines.
pub open spec fn line_texts(lines: Seq<String>) -> Seq<Seq<char>> {
    lines.map_values(|l: String| l@)
}

/// The lines that were logged and not yet written out, oldest first.
pub struct Logger {
    pending: Vec<String>,
}

impl View for Logger {
    type V = Seq<Seq<char>>;

    closed spec fn view(&self) -> Seq<Seq<char>> {
        line_texts(self.pending@)
    }
}

impl Logger {
    /// A logger without a line.
    pub fn init() -> (logger: Self)
        ensures
            logger@ == Seq::<Seq<char>>::empty(),
    {
        let logger = Logger { pending: Vec::new() };
        assert(logger@ =~= Seq::empty());
        logger
    }

    /// Formats a line of the log.
    pub fn format_line(stamp: &str, header: Header, message: &str) -> (line: String)
        ensures
            line@ == log_line(stamp@, header, message@),
    {
        String::from_str("[").concat(stamp).concat("] ").concat(header.as_str()).concat(
            " ",
        ).concat(message)
    }

    /// Logs a message of the given level at the given time.
    pub fn log(&mut self, stamp: &str, header: Header, message: &str)
        ensures
            final(self)@ == old(self)@.push(log_line(stamp@, header, message@)),
    {
        self.pending.push(Self::format_line(stamp, header, message));
        assert(self@ =~= old(self)@.push(log_line(stamp@, header, message@)));
    }

    /// Takes the lines away to be written out; the logger is left without
    /// a line.
    pub fn take_lines(&mut self) -> (lines: Vec<String>)
        ensures
            line_texts(lines@) == old(self)@,
            final(self)@ == Seq::<Seq<char>>::empty(),
    {
        let mut lines: Vec<String> = Vec::new();
        std::mem::swap(&mut self.pending, &mut lines);
        assert(self@ =~= Seq::empty());
        lines
    }
}

} // verus!
