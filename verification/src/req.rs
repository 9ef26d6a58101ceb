//! The request and response payloads of the transport layer.

use vstd::prelude::*;

verus! {

/// A registration request.
#[derive(Clone, PartialEq, Eq, Debug)]
pub struct SignUp {
    pub email: String,
    pub name: String,
    pub password: String,
}

/// A sign-in request.
#[derive(Clone, PartialEq, Eq, Debug)]
pub struct SignIn {
    pub login: String,
    pub password: String,
}

/// A successful sign-in's answer: the issued token.
#[derive(Clone, PartialEq, Eq, Debug)]
pub struct SignInResponse {
    pub token: String,
}

/// A queue-creation request.
#[derive(Clone, PartialEq, Eq, Debug)]
pub struct CreateQueue {
    pub name: String,
    pub description: String,
}

/// A constant `true`, kept as a plain exported value.
pub fn true_value() -> (b: bool)
    ensures
        b,
{
    true
}

} // verus!
