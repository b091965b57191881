//! Errors of the file system, as far as the library tells them apart.

use vstd::prelude::*;

verus! {

#[derive(Debug, Clone, Copy, PartialEq, Eq, Structural)]
pub enum IoErrorKind {
    NotFound,
    AlreadyExists,
    InvalidInput,
    InvalidData,
    TimedOut,
    Other,
}

/// What an [`IoError`] holds.
#[verifier::ext_equal]
pub struct IoErrorView {
    pub kind: IoErrorKind,
    pub message: Seq<char>,
}

#[derive(Debug, Clone, PartialEq, Eq)]
pub struct IoError {
    pub kind: IoErrorKind,
    pub message: String,
}

impl View for IoError {
    type V = IoErrorView;

    open spec fn view(&self) -> IoErrorView {
        IoErrorView { kind: self.kind, message: self.message@ }
    }
}

impl IoError {
    pub fn new(kind: IoErrorKind, message: &str) -> (r: IoError)
        ensures
            r@ == (IoErrorView { kind, message: message@ }),
    {
        IoError { kind, message: message.to_owned() }
    }

    pub fn is_not_found(&self) -> (r: bool)
        ensures
            r == (self@.kind == IoErrorKind::NotFound),
    {
        self.kind == IoErrorKind::NotFound
    }

    pub fn duplicate(&self) -> (r: IoError)
        ensures
            r@ == self@,
    {
        IoError { kind: self.kind, message: self.message.clone() }
    }
}

/// What an outcome with an error of the file system holds, for values that are their own model.
pub open spec fn result_view<T>(r: Result<T, IoError>) -> Result<T, IoErrorView> {
    match r {
        Ok(v) => Ok(v),
        Err(e) => Err(e@),
    }
}

} // verus!
