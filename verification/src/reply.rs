//! The status of an HTTP reply: which statuses are errors, and a status
//! known not to be one.
use vstd::prelude::*;

verus! {

/// Whether an HTTP status is an error: a client error (4xx) or a server
/// error (5xx).
pub open spec fn is_error_status(status: u16) -> bool {
    400 <= status < 600
}

/// An HTTP status that is not an error.
pub struct SuccessStatus {
    code: u16,
}

impl SuccessStatus {
    #[verifier::type_invariant]
    spec fn not_an_error(self) -> bool {
        !is_error_status(self.code)
    }

    /// The status code.
    pub closed spec fn value(&self) -> u16 {
        self.code
    }

    /// The status, where it is not an error; `None` where it is, as
    /// `reqwest` counts it (`error_for_status`).
    pub fn new(code: u16) -> (r: Option<Self>)
        ensures
            r is Some <==> !is_error_status(code),
            r matches Some(s) ==> s.value() == code,
    {
        if 400 <= code && code < 600 {
            None
        } else {
            Some(SuccessStatus { code })
        }
    }

    /// The status code, which is not an error.
    pub fn code(&self) -> (r: u16)
        ensures
            r == self.value(),
            !is_error_status(r),
    {
        proof {
            use_type_invariant(self);
        }
        self.code
    }
}

} // verus!
