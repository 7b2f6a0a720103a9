//! The error type of the library.
use vstd::prelude::*;

verus! {

/// Everything that can go wrong while analyzing a project.
#[derive(Debug, PartialEq, Eq)]
pub enum RustScopeError {
    Io(String),
    InvalidPath(String),
    Usage(String),
    Argument(String),
    Analysis(String),
    Parse(String),
    ReportGeneration(String),
    OutputWrite(String),
}

/// The kind and message of an error.
pub enum ErrorModel {
    Io(Seq<char>),
    InvalidPath(Seq<char>),
    Usage(Seq<char>),
    Argument(Seq<char>),
    Analysis(Seq<char>),
    Parse(Seq<char>),
    ReportGeneration(Seq<char>),
    OutputWrite(Seq<char>),
}

impl View for RustScopeError {
    type V = ErrorModel;

    open spec fn view(&self) -> ErrorModel {
        match self {
            RustScopeError::Io(m) => ErrorModel::Io(m@),
            RustScopeError::InvalidPath(m) => ErrorModel::InvalidPath(m@),
            RustScopeError::Usage(m) => ErrorModel::Usage(m@),
            RustScopeError::Argument(m) => ErrorModel::Argument(m@),
            RustScopeError::Analysis(m) => ErrorModel::Analysis(m@),
            RustScopeError::Parse(m) => ErrorModel::Parse(m@),
            RustScopeError::ReportGeneration(m) => ErrorModel::ReportGeneration(m@),
            RustScopeError::OutputWrite(m) => ErrorModel::OutputWrite(m@),
        }
    }
}

/// The text shown for an error: I/O errors are prefixed with `I/O error: `,
/// every other kind shows its message as it is.
pub open spec fn error_text(e: ErrorModel) -> Seq<char> {
    match e {
        ErrorModel::Io(m) => "I/O error: "@ + m,
        ErrorModel::InvalidPath(m) => m,
        ErrorModel::Usage(m) => m,
        ErrorModel::Argument(m) => m,
        ErrorModel::Analysis(m) => m,
        ErrorModel::Parse(m) => m,
        ErrorModel::ReportGeneration(m) => m,
        ErrorModel::OutputWrite(m) => m,
    }
}

impl RustScopeError {
    /// The text shown for this error.
    pub fn to_string(&self) -> (s: String)
        ensures
            s@ == error_text(self@),
    {
        match self {
            RustScopeError::Io(m) => {
                let mut s = String::from_str("I/O error: ");
                s.append(m.as_str());
                s
            },
            RustScopeError::InvalidPath(m) => m.clone(),
            RustScopeError::Usage(m) => m.clone(),
            RustScopeError::Argument(m) => m.clone(),
            RustScopeError::Analysis(m) => m.clone(),
            RustScopeError::Parse(m) => m.clone(),
            RustScopeError::ReportGeneration(m) => m.clone(),
            RustScopeError::OutputWrite(m) => m.clone(),
        }
    }
}

/// The text of an error is its message, preceded by `I/O error: ` for an
/// I/O error and by nothing otherwise.
pub proof fn law_error_text(e: ErrorModel)
    ensures
        e is Io ==> error_text(e) == "I/O error: "@ + e->Io_0,
        e is InvalidPath ==> error_text(e) == e->InvalidPath_0,
        e is Usage ==> error_text(e) == e->Usage_0,
        e is Argument ==> error_text(e) == e->Argument_0,
        e is Analysis ==> error_text(e) == e->Analysis_0,
        e is Parse ==> error_text(e) == e->Parse_0,
        e is ReportGeneration ==> error_text(e) == e->ReportGeneration_0,
        e is OutputWrite ==> error_text(e) == e->OutputWrite_0,
{
}

} // verus!
