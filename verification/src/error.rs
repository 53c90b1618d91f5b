//! Errors that are shown to the user.
use vstd::prelude::*;

verus! {

/// What went wrong.
#[derive(Debug, PartialEq, Eq)]
pub enum Error {
    /// Reading or writing failed.
    Io(String),
    /// A stream is malformed.
    Logjet(String),
    /// A request cannot be carried out as given.
    Usage(String),
    /// A request that is not supported yet.
    Unimplemented(&'static str),
    /// As [`Error::Usage`], for a caller that reads JSON.
    JsonUsage { code: String, message: String },
}

/// What an [`Error`] says, over mathematical strings.
pub enum ErrorModel {
    Io(Seq<char>),
    Logjet(Seq<char>),
    Usage(Seq<char>),
    Unimplemented(Seq<char>),
    JsonUsage { code: Seq<char>, message: Seq<char> },
}

impl View for Error {
    type V = ErrorModel;

    open spec fn view(&self) -> ErrorModel {
        match *self {
            Error::Io(s) => ErrorModel::Io(s@),
            Error::Logjet(s) => ErrorModel::Logjet(s@),
            Error::Usage(s) => ErrorModel::Usage(s@),
            Error::Unimplemented(s) => ErrorModel::Unimplemented(s@),
            Error::JsonUsage { code, message } => ErrorModel::JsonUsage {
                code: code@,
                message: message@,
            },
        }
    }
}

/// The text that an error shows.
pub open spec fn error_text(e: ErrorModel) -> Seq<char> {
    match e {
        ErrorModel::Io(s) => s,
        ErrorModel::Logjet(s) => s,
        ErrorModel::Usage(s) => s,
        ErrorModel::Unimplemented(s) => s,
        ErrorModel::JsonUsage { code, message } => message,
    }
}

impl Error {
    /// The text that the error shows.
    pub fn message(&self) -> (r: String)
        ensures
            r@ == error_text(self@),
    {
        match self {
            Error::Io(s) => s.clone(),
            Error::Logjet(s) => s.clone(),
            Error::Usage(s) => s.clone(),
            Error::Unimplemented(s) => (*s).to_owned(),
            Error::JsonUsage { code: _, message } => message.clone(),
        }
    }

    /// Whether the error is meant for a caller that reads JSON.
    pub fn is_machine_readable(&self) -> (r: bool)
        ensures
            r == (self@ is JsonUsage),
    {
        match self {
            Error::JsonUsage { .. } => true,
            _ => false,
        }
    }

    /// A usage error.
    pub fn usage(text: &str) -> (r: Self)
        ensures
            r@ == ErrorModel::Usage(text@),
    {
        Error::Usage(text.to_owned())
    }
}

} // verus!
