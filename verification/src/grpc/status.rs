use vstd::prelude::*;

verus! {

/// Why a request was refused.
#[derive(Debug, Clone, Copy, PartialEq, Eq, Structural)]
pub enum Code {
    InvalidArgument,
    NotFound,
    FailedPrecondition,
    ResourceExhausted,
    DeadlineExceeded,
    Unavailable,
    Internal,
}

/// The refusal of a request.
#[derive(Debug)]
pub struct Status {
    pub code: Code,
    pub message: String,
}

/// The refusal of a request as the model sees it.
#[verifier::ext_equal]
pub struct Refusal {
    pub code: Code,
    pub message: Seq<char>,
}

impl View for Status {
    type V = Refusal;

    open spec fn view(&self) -> Refusal {
        Refusal { code: self.code, message: self.message@ }
    }
}

impl Status {
    /// A refusal with this code and message.
    pub fn new(code: Code, message: &str) -> (r: Self)
        ensures
            r@ == refusal(code, message@),
    {
        Status { code, message: message.to_owned() }
    }
}

/// A refusal with this code and message.
pub open spec fn refusal(code: Code, message: Seq<char>) -> Refusal {
    Refusal { code, message }
}

/// The request was refused just like this.
pub open spec fn refused<T>(r: Result<T, Status>, with: Refusal) -> bool {
    match r {
        Ok(_) => false,
        Err(status) => status@ == with,
    }
}

} // verus!
