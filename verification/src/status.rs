//! Status errors and call results.

use vstd::prelude::*;

verus! {

/// The status codes that a call can end with.
#[derive(Clone, Copy, Debug, PartialEq, Eq, Hash, Structural)]
pub enum Code {
    /// The call went well; never the code of an error that the dispatcher makes.
    Success,
    Cancelled,
    Unknown,
    InvalidArgument,
    DeadlineExceeded,
    NotFound,
    AlreadyExists,
    PermissionDenied,
    ResourceExhausted,
    FailedPrecondition,
    Aborted,
    OutOfRange,
    Unimplemented,
    Internal,
    Unavailable,
    DataLoss,
    Unauthenticated,
}

/// A status error: a code and a message for the caller.
#[derive(Debug)]
pub struct Status {
    pub code: Code,
    pub message: String,
}

/// One item of a response sequence.
pub type CallResult<P> = Result<P, Status>;

/// The message of the status that answers a call to a service that is not
/// registered.
pub open spec fn not_found_message() -> Seq<char> {
    "service not found"@
}

/// Whether `item` is the status error that answers a call to a service that
/// is not registered.
pub open spec fn is_not_found<P>(item: CallResult<P>) -> bool {
    item matches Err(status) && status.code == Code::NotFound && status.message@
        == not_found_message()
}

impl Status {
    /// A status with the given code and message.
    pub fn new(code: Code, message: &str) -> (status: Self)
        ensures
            status.code == code,
            status.message@ == message@,
    {
        Status { code, message: message.to_owned() }
    }

    /// The status that answers a call to a service that is not registered.
    pub fn not_found() -> (status: Self)
        ensures
            status.code == Code::NotFound,
            status.message@ == not_found_message(),
    {
        Status::new(Code::NotFound, "service not found")
    }

    /// The code.
    pub fn code(&self) -> (code: Code)
        ensures
            code == self.code,
    {
        self.code
    }

    /// The message.
    pub fn message(&self) -> (message: &str)
        ensures
            message@ == self.message@,
    {
        self.message.as_str()
    }
}

/// The whole response sequence of a call to a service that is not
/// registered: the not-found status, once.
pub fn not_found_reply<P>() -> (reply: Vec<CallResult<P>>)
    ensures
        reply@.len() == 1,
        is_not_found(reply@[0]),
{
    let mut reply: Vec<CallResult<P>> = Vec::new();
    reply.push(Err(Status::not_found()));
    reply
}

} // verus!
