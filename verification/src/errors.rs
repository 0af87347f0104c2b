//! The error taxonomy shared by every component.

use vstd::prelude::*;
use crate::parsers::ParseError;

verus! {

/// What went wrong.
///
/// The first four variants stand for failures of collaborators (timer,
/// I/O, logger set-up, command line) and carry the text of that failure.
#[derive(Debug, Clone, PartialEq, Eq)]
pub enum ErrorKind {
    Timer(String),
    IO(String),
    SetLogger(String),
    Getopts(String),
    Message(String),
    Poison(String),
    TomlParse(String),
    TomlDecode,
    TomlKey(String),
    Config(String),
    ConfigSection(String),
    ConfigField(String, String),
    MissingPlugin(String),
    MissingField(String),
    /// Text that a parser did not accept.
    Syntax(String),
    /// The shutdown sentinel: not a failure.
    Shutdown,
    Poll,
    Update,
    Setup,
}

impl ErrorKind {
    /// The short, fixed description of each kind.
    pub open spec fn spec_description(&self) -> Seq<char> {
        match self {
            ErrorKind::Timer(_) => "timer error"@,
            ErrorKind::IO(_) => "io error"@,
            ErrorKind::SetLogger(_) => "logger error"@,
            ErrorKind::Getopts(_) => "option error"@,
            ErrorKind::Message(_) => "error"@,
            ErrorKind::Poison(_) => "poison error"@,
            ErrorKind::TomlParse(_) => "parse error"@,
            ErrorKind::TomlDecode => "decode error"@,
            ErrorKind::TomlKey(_) => "parse error"@,
            ErrorKind::Config(_) => "error in config"@,
            ErrorKind::ConfigSection(_) => "error in section"@,
            ErrorKind::ConfigField(_, _) => "error in field"@,
            ErrorKind::MissingPlugin(_) => "no such plugin"@,
            ErrorKind::MissingField(_) => "missing field"@,
            ErrorKind::Syntax(_) => "syntax error"@,
            ErrorKind::Shutdown => "shutdown"@,
            ErrorKind::Poll => "Poll"@,
            ErrorKind::Update => "Update"@,
            ErrorKind::Setup => "Setup"@,
        }
    }

    /// The full message of each kind: the description, followed by the
    /// payload where there is one. A collaborator's failure is shown by its
    /// own text alone.
    pub open spec fn spec_message(&self) -> Seq<char> {
        match self {
            ErrorKind::Timer(text) => text@,
            ErrorKind::IO(text) => text@,
            ErrorKind::SetLogger(text) => text@,
            ErrorKind::Getopts(text) => text@,
            ErrorKind::Message(msg) => "error: "@ + msg@,
            ErrorKind::Poison(msg) => "poison error: "@ + msg@,
            ErrorKind::TomlParse(errors) => "parse error: "@ + errors@,
            ErrorKind::TomlDecode => "decode error"@,
            ErrorKind::TomlKey(errors) => "parse error: "@ + errors@,
            ErrorKind::Config(path) => "error in config: "@ + path@,
            ErrorKind::ConfigSection(section) => "error in section: "@ + section@,
            ErrorKind::ConfigField(field, reason) => "error in field: "@ + field@ + ": "@ + reason@,
            ErrorKind::MissingPlugin(key) => "no such plugin: "@ + key@,
            ErrorKind::MissingField(name) => "missing field: "@ + name@,
            ErrorKind::Syntax(info) => "syntax error: "@ + info@,
            ErrorKind::Shutdown => "shutdown"@,
            ErrorKind::Poll => "Poll"@,
            ErrorKind::Update => "Update"@,
            ErrorKind::Setup => "Setup"@,
        }
    }

    pub fn description(&self) -> (text: &'static str)
        ensures
            text@ == self.spec_description(),
    {
        match self {
            ErrorKind::Timer(_) => "timer error",
            ErrorKind::IO(_) => "io error",
            ErrorKind::SetLogger(_) => "logger error",
            ErrorKind::Getopts(_) => "option error",
            ErrorKind::Message(_) => "error",
            ErrorKind::Poison(_) => "poison error",
            ErrorKind::TomlParse(_) => "parse error",
            ErrorKind::TomlDecode => "decode error",
            ErrorKind::TomlKey(_) => "parse error",
            ErrorKind::Config(_) => "error in config",
            ErrorKind::ConfigSection(_) => "error in section",
            ErrorKind::ConfigField(_, _) => "error in field",
            ErrorKind::MissingPlugin(_) => "no such plugin",
            ErrorKind::MissingField(_) => "missing field",
            ErrorKind::Syntax(_) => "syntax error",
            ErrorKind::Shutdown => "shutdown",
            ErrorKind::Poll => "Poll",
            ErrorKind::Update => "Update",
            ErrorKind::Setup => "Setup",
        }
    }

    /// The message shown to the operator.
    pub fn message(&self) -> (text: String)
        ensures
            text@ == self.spec_message(),
    {
        match self {
            ErrorKind::Timer(text) => text.clone(),
            ErrorKind::IO(text) => text.clone(),
            ErrorKind::SetLogger(text) => text.clone(),
            ErrorKind::Getopts(text) => text.clone(),
            ErrorKind::Message(msg) => prefixed("error: ", msg),
            ErrorKind::Poison(msg) => prefixed("poison error: ", msg),
            ErrorKind::TomlParse(errors) => prefixed("parse error: ", errors),
            ErrorKind::TomlDecode => "decode error".to_owned(),
            ErrorKind::TomlKey(errors) => prefixed("parse error: ", errors),
            ErrorKind::Config(path) => prefixed("error in config: ", path),
            ErrorKind::ConfigSection(section) => prefixed("error in section: ", section),
            ErrorKind::ConfigField(field, reason) => {
                let mut text = prefixed("error in field: ", field);
                text.append(": ");
                text.append(reason.as_str());
                text
            },
            ErrorKind::MissingPlugin(key) => prefixed("no such plugin: ", key),
            ErrorKind::MissingField(name) => prefixed("missing field: ", name),
            ErrorKind::Syntax(info) => prefixed("syntax error: ", info),
            ErrorKind::Shutdown => "shutdown".to_owned(),
            ErrorKind::Poll => "Poll".to_owned(),
            ErrorKind::Update => "Update".to_owned(),
            ErrorKind::Setup => "Setup".to_owned(),
        }
    }

    /// Whether this is the shutdown sentinel.
    pub fn is_shutdown(&self) -> (yes: bool)
        ensures
            yes == (*self == ErrorKind::Shutdown),
    {
        match self {
            ErrorKind::Shutdown => true,
            _ => false,
        }
    }
}

/// `head` followed by `tail`.
fn prefixed(head: &str, tail: &String) -> (text: String)
    ensures
        text@ == head@ + tail@,
{
    let mut text = head.to_owned();
    text.append(tail.as_str());
    text
}

/// An error together with the chain of errors that caused it.
///
/// `causes[0]` is the immediate cause of `kind`, `causes[1]` the cause of
/// that one, and so on down to the root.
#[derive(Debug, Clone, PartialEq, Eq)]
pub struct Error {
    pub kind: ErrorKind,
    pub causes: Vec<ErrorKind>,
}

impl Error {
    /// An error without a cause.
    pub fn new(kind: ErrorKind) -> (err: Error)
        ensures
            err.kind == kind,
            err.causes@.len() == 0,
    {
        Error { kind, causes: Vec::new() }
    }

    /// The error for input that a parser did not accept: a syntax error
    /// that says whether the input broke off or held something invalid.
    pub fn from_parse(err: ParseError) -> (e: Error)
        ensures
            e.causes@.len() == 0,
            e.kind matches ErrorKind::Syntax(info) && info@ == (match err {
                ParseError::Incomplete => "input incomplete"@,
                ParseError::Invalid => "invalid input"@,
            }),
    {
        match err {
            ParseError::Incomplete => Error::new(ErrorKind::Syntax("input incomplete".to_owned())),
            ParseError::Invalid => Error::new(ErrorKind::Syntax("invalid input".to_owned())),
        }
    }

    /// The error for a configuration that could not be decoded: an error
    /// of the field at fault where the decoder names one, and a plain
    /// message where it names none.
    pub fn from_decode(field: Option<String>, text: String) -> (e: Error)
        ensures
            e.causes@.len() == 0,
            match field {
                Some(name) => e.kind == ErrorKind::ConfigField(name, text),
                None => e.kind == ErrorKind::Message(text),
            },
    {
        match field {
            Some(name) => Error::new(ErrorKind::ConfigField(name, text)),
            None => Error::new(ErrorKind::Message(text)),
        }
    }

    /// Wraps this error in a new one of the given kind; this error becomes
    /// the immediate cause and keeps its own causes behind it.
    pub fn chain_err(self, kind: ErrorKind) -> (err: Error)
        ensures
            err.kind == kind,
            err.causes@ == seq![self.kind] + self.causes@,
    {
        let mut causes = self.causes;
        causes.insert(0, self.kind);
        Error { kind, causes }
    }

    /// Whether the error itself (not one of its causes) is the shutdown
    /// sentinel.
    pub fn is_shutdown(&self) -> (yes: bool)
        ensures
            yes == (self.kind == ErrorKind::Shutdown),
    {
        self.kind.is_shutdown()
    }

    /// The lines of the report for the operator: what a report of this
    /// error holds.
    pub open spec fn spec_report(&self) -> Seq<Seq<char>> {
        seq![self.kind.spec_message()] + self.causes@.map_values(
            |cause: ErrorKind| "  caused by: "@ + cause.spec_message(),
        )
    }

    /// The report for the operator: the error's message on the first line,
    /// then one line for each cause, from the immediate cause to the root.
    pub fn report(&self) -> (lines: Vec<String>)
        ensures
            lines@.len() == self.causes@.len() + 1,
            forall|i: int| 0 <= i < lines@.len() ==> (#[trigger] lines@[i])@ == self.spec_report()[i],
    {
        let mut lines: Vec<String> = Vec::new();
        lines.push(self.kind.message());
        let mut i: usize = 0;
        while i < self.causes.len()
            invariant
                i <= self.causes@.len(),
                lines@.len() == i + 1,
                forall|j: int| 0 <= j < lines@.len() ==> (#[trigger] lines@[j])@ == self.spec_report()[j],
            decreases self.causes@.len() - i,
        {
            let cause = self.causes[i].message();
            let line = prefixed("  caused by: ", &cause);
            lines.push(line);
            i = i + 1;
        }
        lines
    }
}

/// The process exit code for the outcome of a run: 0 where the run ended
/// cleanly or was shut down, 1 for any other error.
pub open spec fn spec_exit_code(outcome: Result<(), Error>) -> i32 {
    match outcome {
        Ok(_) => 0,
        Err(err) => if err.kind == ErrorKind::Shutdown {
            0
        } else {
            1
        },
    }
}

pub fn exit_code(outcome: &Result<(), Error>) -> (code: i32)
    ensures
        code == spec_exit_code(*outcome),
{
    match outcome {
        Ok(_) => 0,
        Err(err) => if err.is_shutdown() {
            0
        } else {
            1
        },
    }
}

} // verus!
