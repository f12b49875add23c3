//! The ways in which resolving a binary's dependencies can fail.

use vstd::prelude::*;

verus! {

/// `std::io::Error`, the operating system's own error value. Nothing is known
/// of what it holds and nothing is read from it here: it is carried to the
/// caller as it came.
#[verifier::external_type_specification]
#[verifier::external_body]
pub struct ExIoError(std::io::Error);

/// Why a resolution produced no dependency list.
#[derive(Debug)]
pub enum ResolveError {
    /// The workspace that the analyzer runs in could not be created.
    Io(std::io::Error),
    /// The analyzer could not be started at all: the cause, and the name of
    /// the program that was tried.
    CommandFailed(std::io::Error, &'static str),
    /// The analyzer ran and reported a failure: the program's name, the
    /// binary it was run on, and what it wrote to standard error.
    CommandError(&'static str, String, Vec<u8>),
    /// The analyzer's output does not have the expected form: what is wrong
    /// with it.
    Format(&'static str),
}

/// A `ResolveError` with its texts and bytes as sequences.
pub ghost enum ErrorView {
    Io(std::io::Error),
    CommandFailed(std::io::Error, Seq<char>),
    CommandError(Seq<char>, Seq<char>, Seq<u8>),
    Format(Seq<char>),
}

impl View for ResolveError {
    type V = ErrorView;

    open spec fn view(&self) -> ErrorView {
        match *self {
            ResolveError::Io(cause) => ErrorView::Io(cause),
            ResolveError::CommandFailed(cause, program) => ErrorView::CommandFailed(
                cause,
                program@,
            ),
            ResolveError::CommandError(program, target, stderr) => ErrorView::CommandError(
                program@,
                target@,
                stderr@,
            ),
            ResolveError::Format(reason) => ErrorView::Format(reason@),
        }
    }
}

/// A result with what it holds as sequences: the texts of a list, or the
/// view of an error.
pub open spec fn list_result_view(result: Result<Vec<String>, ResolveError>) -> Result<
    Seq<Seq<char>>,
    ErrorView,
> {
    match result {
        Ok(list) => Ok(list.deep_view()),
        Err(error) => Err(error@),
    }
}

/// A result with what it holds as sequences: the bytes of an output, or the
/// view of an error.
pub open spec fn bytes_result_view(result: Result<Vec<u8>, ResolveError>) -> Result<
    Seq<u8>,
    ErrorView,
> {
    match result {
        Ok(bytes) => Ok(bytes@),
        Err(error) => Err(error@),
    }
}

impl From<std::io::Error> for ResolveError {
    /// An error of the operating system, taken as a failure to set up the
    /// workspace.
    fn from(cause: std::io::Error) -> (error: ResolveError) {
        ResolveError::Io(cause)
    }
}

impl vstd::std_specs::convert::FromSpecImpl<std::io::Error> for ResolveError {
    open spec fn obeys_from_spec() -> bool {
        true
    }

    open spec fn from_spec(cause: std::io::Error) -> ResolveError {
        ResolveError::Io(cause)
    }
}

} // verus!
