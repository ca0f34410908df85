//! The failure of a command: a message for stderr, and the condition that its
//! exit code tells.
use crate::exit::ExitKind;
use crate::exit;
use crate::text;
use vstd::prelude::*;

verus! {

/// A failed command.
#[derive(Debug)]
pub struct Error {
    /// The condition that callers branch on, where there is one.
    pub kind: Option<ExitKind>,
    /// What to tell the operator; a cause follows its context after a colon.
    pub message: String,
}

/// The exit code that a failure of this kind gives: the kind's own, else 1.
pub open spec fn failure_code(kind: Option<ExitKind>) -> i32 {
    match kind {
        Some(k) => exit::exit_code(k),
        None => 1,
    }
}

/// `e` is a generic failure with this message.
pub open spec fn told(e: Error, message: Seq<char>) -> bool {
    e.kind is None && e.message@ == message
}

/// A result whose text, or whose generic failure's message, is the expected one.
pub open spec fn yields(r: Result<String, Error>, want: Result<Seq<char>, Seq<char>>) -> bool {
    match (r, want) {
        (Ok(a), Ok(b)) => a@ == b,
        (Err(e), Err(m)) => told(e, m),
        _ => false,
    }
}

/// A failure's message, with what was being done put in front.
pub open spec fn while_doing<T>(doing: Seq<char>, r: Result<T, Seq<char>>) -> Result<T, Seq<char>> {
    match r {
        Ok(t) => Ok(t),
        Err(m) => Err(doing + ": "@ + m),
    }
}

impl Error {
    /// A generic failure.
    pub fn new(message: String) -> (r: Error)
        ensures
            r.kind is None,
            r.message == message,
    {
        Error { kind: None, message }
    }

    /// A failure that its exit code tells apart. The message names the kind last.
    pub fn tagged(kind: ExitKind, message: String) -> (r: Error)
        ensures
            r.kind == Some(kind),
            r.message@ == message@ + ": "@ + exit::exit_label(kind),
    {
        let mut m = message;
        m.append(": ");
        m.append(kind.label());
        Error { kind: Some(kind), message: m }
    }

    /// The same failure, with what was being done put in front of its message.
    pub fn context(self, doing: &str) -> (r: Error)
        ensures
            r.kind == self.kind,
            r.message@ == doing@ + ": "@ + self.message@,
    {
        let mut m = text::own(doing);
        m.append(": ");
        m.append(self.message.as_str());
        Error { kind: self.kind, message: m }
    }

    /// The process exit code.
    pub fn code(&self) -> (r: i32)
        ensures
            r == failure_code(self.kind),
    {
        match self.kind {
            Some(k) => k.code(),
            None => 1,
        }
    }
}

} // verus!
