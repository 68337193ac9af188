//! Response constructors for the lightweight event-stream chat endpoints.

use vstd::prelude::*;

verus! {

/// Settings for the event-stream chat; all defaults.
#[derive(Debug, Clone)]
pub struct Config {

}

/// How key management can fail.
#[derive(Debug, Clone, Copy, PartialEq, Eq, Structural)]
pub enum KeyError {
    LockPoisoned,
    TooManyKeys,
}

/// An HTTP response for the chat endpoints: a refusal with a fixed text or
/// a successful payload.
#[derive(Debug)]
pub enum ChatResponder<O> {
    TeaPot(&'static str),
    BadRequest(&'static str),
    Unauthorized(&'static str),
    Okay(O),
}

impl<O> ChatResponder<O> {
    pub fn invalid_key() -> (r: Self)
        ensures
            r matches ChatResponder::Unauthorized(t) && t@ == "Invalid key"@,
    {
        ChatResponder::Unauthorized("Invalid key")
    }

    pub fn too_long() -> (r: Self)
        ensures
            r matches ChatResponder::BadRequest(t) && t@ == "Too long"@,
    {
        ChatResponder::BadRequest("Too long")
    }

    pub fn invalid_char() -> (r: Self)
        ensures
            r matches ChatResponder::BadRequest(t) && t@ == "Invalid chars"@,
    {
        ChatResponder::BadRequest("Invalid chars")
    }

    pub fn teapot() -> (r: Self)
        ensures
            r matches ChatResponder::TeaPot(t) && t@ == "I am a teapot. Leave me alone please :("@,
    {
        ChatResponder::TeaPot("I am a teapot. Leave me alone please :(")
    }
}

/// The response to a new-key request.
#[derive(Debug)]
pub enum NewKeyResponse {
    Okay(String),
    TeaPot(&'static str),
    Badrequest(&'static str),
}

impl NewKeyResponse {
    pub fn teapot() -> (r: Self)
        ensures
            r matches NewKeyResponse::TeaPot(t) && t@ == "I am a teapot. Leave me alone please :("@,
    {
        NewKeyResponse::TeaPot("I am a teapot. Leave me alone please :(")
    }

    pub fn room_filled() -> (r: Self)
        ensures
            r matches NewKeyResponse::Badrequest(t) && t@
                == "Too many people in chat right now"@,
    {
        NewKeyResponse::Badrequest("Too many people in chat right now")
    }
}

} // verus!
