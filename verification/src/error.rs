//! The errors of scanning, parsing and indexing.

use vstd::prelude::*;
use vstd::string::*;

use crate::model::FileLanguage;
use crate::paths;

verus! {

/// What kind of failure an error reports.
#[derive(Debug, Clone, Copy, PartialEq, Eq, Structural)]
pub enum ErrorKind {
    Io,
    UnsupportedLanguage,
    Parse,
    InvalidInput,
    Internal,
}

/// Whether a run can go on after an error.
#[derive(Debug, Clone, Copy, PartialEq, Eq, Structural)]
pub enum ErrorSeverity {
    /// The run goes on with what is left.
    Recoverable,
    /// There is nothing to go on with.
    Unrecoverable,
}

/// A run goes on after every failure but one of what it was asked for.
pub open spec fn severity_of(kind: ErrorKind) -> ErrorSeverity {
    if kind == ErrorKind::InvalidInput {
        ErrorSeverity::Unrecoverable
    } else {
        ErrorSeverity::Recoverable
    }
}

/// Only an error of what was asked for ends a run.
pub proof fn law_only_what_was_asked_for_ends_a_run(kind: ErrorKind)
    ensures
        severity_of(kind) == ErrorSeverity::Unrecoverable <==> kind == ErrorKind::InvalidInput,
        severity_of(kind) == ErrorSeverity::Recoverable <==> kind != ErrorKind::InvalidInput,
{
}

/// Where an error happened.
#[derive(Debug)]
pub struct ErrorContext {
    pub path: Option<String>,
    pub language: Option<FileLanguage>,
    pub operation: Option<&'static str>,
}

impl Default for ErrorContext {
    fn default() -> (r: Self)
        ensures
            r.path is None,
            r.language is None,
            r.operation is None,
    {
        ErrorContext { path: None, language: None, operation: None }
    }
}

impl Clone for ErrorContext {
    fn clone(&self) -> (r: Self)
        ensures
            r == *self,
    {
        ErrorContext { path: self.path.clone(), language: self.language, operation: self.operation }
    }
}

impl ErrorContext {
    /// Names the path.
    pub fn with_path(self, path: &str) -> (r: Self)
        ensures
            paths::opt_view(r.path) == Some(path@),
            r.language == self.language,
            r.operation == self.operation,
    {
        ErrorContext { path: Some(path.to_owned()), language: self.language, operation: self.operation }
    }

    /// Names the language.
    pub fn with_language(self, language: FileLanguage) -> (r: Self)
        ensures
            r.language == Some(language),
            r.path == self.path,
            r.operation == self.operation,
    {
        ErrorContext { path: self.path, language: Some(language), operation: self.operation }
    }

    /// Names the operation.
    pub fn with_operation(self, operation: &'static str) -> (r: Self)
        ensures
            r.operation == Some(operation),
            r.path == self.path,
            r.language == self.language,
    {
        ErrorContext { path: self.path, language: self.language, operation: Some(operation) }
    }
}

/// A failure, with a message and where it happened.
#[derive(Debug)]
pub struct AtlasError {
    pub kind: ErrorKind,
    pub message: String,
    pub context: ErrorContext,
}

impl Clone for AtlasError {
    fn clone(&self) -> (r: Self)
        ensures
            r == *self,
    {
        AtlasError { kind: self.kind, message: self.message.clone(), context: self.context.clone() }
    }
}

/// A plain error tells its kind and its message, and nothing of where it happened.
pub proof fn law_plain_errors_say_no_more(e: AtlasError, kind: ErrorKind, message: Seq<char>)
    requires
        e.is_plain(kind, message),
    ensures
        e.kind == kind,
        e.message@ == message,
        e.context.path is None && e.context.language is None && e.context.operation is None,
{
}

impl AtlasError {
    /// The error has a kind and a message, and no context.
    pub open spec fn is_plain(self, kind: ErrorKind, message: Seq<char>) -> bool {
        &&& self.kind == kind
        &&& self.message@ == message
        &&& self.context.path is None
        &&& self.context.language is None
        &&& self.context.operation is None
    }

    /// An error without context.
    pub fn new(kind: ErrorKind, message: &str) -> (r: Self)
        ensures
            r.is_plain(kind, message@),
    {
        AtlasError { kind, message: message.to_owned(), context: ErrorContext::default() }
    }

    /// Whether a run can go on after the error.
    pub fn severity(&self) -> (r: ErrorSeverity)
        ensures
            r == severity_of(self.kind),
    {
        if self.kind == ErrorKind::InvalidInput {
            ErrorSeverity::Unrecoverable
        } else {
            ErrorSeverity::Recoverable
        }
    }

    /// Tells whether a run can go on after the error.
    pub fn is_recoverable(&self) -> (r: bool)
        ensures
            r == (severity_of(self.kind) == ErrorSeverity::Recoverable),
    {
        self.severity() == ErrorSeverity::Recoverable
    }

    /// The same error with another context.
    pub fn with_context(self, context: ErrorContext) -> (r: Self)
        ensures
            r.kind == self.kind,
            r.message == self.message,
            r.context == context,
    {
        AtlasError { kind: self.kind, message: self.message, context }
    }

    /// A failed read or write.
    pub fn io(message: &str) -> (r: Self)
        ensures
            r.is_plain(ErrorKind::Io, message@),
    {
        Self::new(ErrorKind::Io, message)
    }

    /// A source text that cannot be parsed.
    pub fn parse(message: &str) -> (r: Self)
        ensures
            r.is_plain(ErrorKind::Parse, message@),
    {
        Self::new(ErrorKind::Parse, message)
    }

    /// A language without a parser.
    pub fn unsupported_language(message: &str) -> (r: Self)
        ensures
            r.is_plain(ErrorKind::UnsupportedLanguage, message@),
    {
        Self::new(ErrorKind::UnsupportedLanguage, message)
    }

    /// An argument that cannot be used.
    pub fn invalid_input(message: &str) -> (r: Self)
        ensures
            r.is_plain(ErrorKind::InvalidInput, message@),
    {
        Self::new(ErrorKind::InvalidInput, message)
    }

    /// A failure of the program itself.
    pub fn internal(message: &str) -> (r: Self)
        ensures
            r.is_plain(ErrorKind::Internal, message@),
    {
        Self::new(ErrorKind::Internal, message)
    }

    /// The error as a line of text: the message, then what is known of the context.
    pub open spec fn display(self) -> Seq<char> {
        let operation = match self.context.operation {
            Some(o) => " [operation="@ + o@ + "]"@,
            None => Seq::empty(),
        };
        let path = match self.context.path {
            Some(p) => " [path="@ + p@ + "]"@,
            None => Seq::empty(),
        };
        let language = match self.context.language {
            Some(l) => " [language="@ + l.name() + "]"@,
            None => Seq::empty(),
        };
        self.message@ + operation + path + language
    }

    /// Writes the error as a line of text.
    pub fn to_text(&self) -> (r: String)
        ensures
            r@ == self.display(),
    {
        let mut r = self.message.clone();
        let ghost m = r@;
        if let Some(o) = self.context.operation {
            r.append(" [operation=");
            r.append(o);
            r.append("]");
            assert(r@ =~= m + (" [operation="@ + o@ + "]"@));
        } else {
            assert(r@ =~= m + Seq::<char>::empty());
        }
        let ghost m = r@;
        if let Some(p) = &self.context.path {
            r.append(" [path=");
            r.append(p.as_str());
            r.append("]");
            assert(r@ =~= m + (" [path="@ + p@ + "]"@));
        } else {
            assert(r@ =~= m + Seq::<char>::empty());
        }
        let ghost m = r@;
        if let Some(l) = self.context.language {
            r.append(" [language=");
            r.append(l.as_str());
            r.append("]");
            assert(r@ =~= m + (" [language="@ + l.name() + "]"@));
        } else {
            assert(r@ =~= m + Seq::<char>::empty());
        }
        r
    }
}

/// The result of an operation of the atlas.
pub type AtlasResult<T> = Result<T, AtlasError>;

} // verus!
