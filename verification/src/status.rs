//! Answers to requests that fail: a code and a sentence.
use vstd::prelude::*;

verus! {

/// The status codes that gRPC has for failures.
#[derive(Debug, Clone, Copy, PartialEq, Eq, Structural)]
pub enum Code {
    Cancelled,
    Unknown,
    InvalidArgument,
    DeadlineExceeded,
    NotFound,
    AlreadyExists,
    PermissionDenied,
    ResourceExhausted,
    FailedPrecondition,
    Aborted,
    OutOfRange,
    Unimplemented,
    Internal,
    Unavailable,
    DataLoss,
    Unauthenticated,
}

#[derive(Debug, Clone, PartialEq, Eq)]
pub struct Status {
    pub code: Code,
    pub message: String,
}

#[verifier::ext_equal]
pub struct StatusView {
    pub code: Code,
    pub message: Seq<char>,
}

impl View for Status {
    type V = StatusView;

    open spec fn view(&self) -> StatusView {
        StatusView { code: self.code, message: self.message@ }
    }
}

pub open spec fn status_of(code: Code, message: Seq<char>) -> StatusView {
    StatusView { code, message }
}

impl Status {
    pub fn new(code: Code, message: &str) -> (r: Status)
        ensures
            r@ == status_of(code, message@),
    {
        Status { code, message: message.to_owned() }
    }
}

/// `r` is the answer that `want` describes.
pub open spec fn answers<T: View>(r: Result<T, Status>, want: Result<T::V, StatusView>) -> bool {
    match r {
        Ok(x) => want == Ok::<T::V, StatusView>(x@),
        Err(e) => want == Err::<T::V, StatusView>(e@),
    }
}

} // verus!
