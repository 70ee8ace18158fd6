//! Log message formatting: a severity level and a text, rendered as one
//! tagged line. Writing the line anywhere is the caller's business.

use vstd::prelude::*;
use crate::text::{chars_of_str, push_all, string_from_chars};

verus! {

/// The severity of a log message.
pub enum LogLevel {
    Normal,
    Warning,
    Error,
    FatalError,
    Bug,
    Debug,
}

impl LogLevel {
    /// The tag a level renders as.
    pub open spec fn tag(&self) -> Seq<char> {
        match self {
            LogLevel::Normal => "LOG"@,
            LogLevel::Warning => "WARN"@,
            LogLevel::Error => "ERR"@,
            LogLevel::FatalError => "FATAL"@,
            LogLevel::Debug => "DEBUG"@,
            LogLevel::Bug => "BUG"@,
        }
    }

    /// The tag a level renders as.
    pub fn to_string(&self) -> (r: String)
        ensures
            r@ == self.tag(),
    {
        let ret = match self {
            LogLevel::Normal => "LOG",
            LogLevel::Warning => "WARN",
            LogLevel::Error => "ERR",
            LogLevel::FatalError => "FATAL",
            LogLevel::Debug => "DEBUG",
            LogLevel::Bug => "BUG",
        };
        ret.to_owned()
    }
}

/// One log line: a level and its text.
pub struct Message<'a> {
    pub level: LogLevel,
    pub msg: &'a str,
}

impl<'a> Message<'a> {
    /// A message of the given level.
    pub fn new(level: LogLevel, msg: &'a str) -> (r: Self)
        ensures
            r.level == level,
            r.msg@ == msg@,
    {
        Message { level, msg }
    }

    /// The full line a message renders as: the bracketed level tag, a
    /// space, the text, a newline.
    pub open spec fn formatted(&self) -> Seq<char> {
        seq!['['] + self.level.tag() + seq![']', ' '] + self.msg@ + seq!['\n']
    }

    /// Renders the message as one tagged line.
    pub fn format(&self) -> (r: String)
        ensures
            r@ == self.formatted(),
    {
        let mut out: Vec<char> = Vec::new();
        out.push('[');
        let tag = self.level.to_string();
        let tag_chars = chars_of_str(tag.as_str());
        push_all(&mut out, &tag_chars);
        out.push(']');
        out.push(' ');
        let msg_chars = chars_of_str(self.msg);
        push_all(&mut out, &msg_chars);
        out.push('\n');
        proof {
            assert(out@ =~= self.formatted());
        }
        string_from_chars(&out)
    }
}

} // verus!
