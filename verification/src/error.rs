//! The error that every fallible operation of the library returns.
use vstd::prelude::*;
use vstd::string::*;

verus! {

/// An error with a machine-readable code, a human-readable message, and whether the
/// user has to authenticate again to get past it.
#[derive(Debug)]
pub struct HelperError {
    pub code: String,
    pub message: String,
    pub auth_required: bool,
}

/// What an error says, as plain values.
pub struct ErrorModel {
    pub code: Seq<char>,
    pub message: Seq<char>,
    pub auth_required: bool,
}

impl View for HelperError {
    type V = ErrorModel;

    open spec fn view(&self) -> ErrorModel {
        ErrorModel { code: self.code@, message: self.message@, auth_required: self.auth_required }
    }
}

/// The error that asks the user to authenticate (again).
pub open spec fn auth_required_error(message: Seq<char>) -> ErrorModel {
    ErrorModel { code: "auth-required"@, message, auth_required: true }
}

/// The error for a request that cannot be carried out as given.
pub open spec fn invalid_request_error(message: Seq<char>) -> ErrorModel {
    ErrorModel { code: "invalid-request"@, message, auth_required: false }
}

/// The error for a failure of the helper itself.
pub open spec fn helper_failure_error(message: Seq<char>) -> ErrorModel {
    ErrorModel { code: "helper-failure"@, message, auth_required: false }
}

impl HelperError {
    pub fn auth_required(message: &str) -> (e: Self)
        ensures
            e@ == auth_required_error(message@),
    {
        HelperError {
            code: String::from_str("auth-required"),
            message: String::from_str(message),
            auth_required: true,
        }
    }

    pub fn invalid_request(message: &str) -> (e: Self)
        ensures
            e@ == invalid_request_error(message@),
    {
        HelperError {
            code: String::from_str("invalid-request"),
            message: String::from_str(message),
            auth_required: false,
        }
    }

    pub fn helper_failure(message: &str) -> (e: Self)
        ensures
            e@ == helper_failure_error(message@),
    {
        HelperError {
            code: String::from_str("helper-failure"),
            message: String::from_str(message),
            auth_required: false,
        }
    }
}

} // verus!
