use vstd::prelude::*;

verus! {

/// Declares `std::io::Error`, carried opaquely by a walk error.
#[verifier::external_type_specification]
#[verifier::external_body]
pub struct ExIoError(std::io::Error);

/// A glob iteration error: a directory whose contents could not be read.
#[derive(Debug)]
pub struct GlobError {
    path: String,
    error: std::io::Error,
}

impl GlobError {
    /// The error of the directory `path`.
    pub(crate) fn new(path: String, error: std::io::Error) -> (r: Self)
        ensures
            r.path_view() == path@,
            r.error_view() == error,
    {
        GlobError { path, error }
    }

    pub closed spec fn path_view(&self) -> Seq<char> {
        self.path@
    }

    pub closed spec fn error_view(&self) -> std::io::Error {
        self.error
    }

    /// The path that the error corresponds to.
    pub fn path(&self) -> (r: &str)
        ensures
            r@ == self.path_view(),
    {
        self.path.as_str()
    }

    /// The error in question.
    pub fn error(&self) -> (r: &std::io::Error)
        ensures
            *r == self.error_view(),
    {
        &self.error
    }

    /// Consumes self, returning the underlying error.
    pub fn into_error(self) -> (r: std::io::Error)
        ensures
            r == self.error_view(),
    {
        self.error
    }
}

} // verus!
