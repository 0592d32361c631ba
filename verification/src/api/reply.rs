use vstd::prelude::*;

verus! {

/// The outcome of a request, as a transport reports it.
#[derive(Clone, Copy, Debug, PartialEq, Eq, Structural)]
pub enum Status {
    Success,
    BadRequest,
    NotFound,
    Conflict,
    InternalServerError,
}

/// The number that stands for a status.
pub open spec fn status_code(status: Status) -> u16 {
    match status {
        Status::Success => 200,
        Status::BadRequest => 400,
        Status::NotFound => 404,
        Status::Conflict => 409,
        Status::InternalServerError => 500,
    }
}

impl Status {
    /// The number that stands for this status.
    pub fn code(self) -> (r: u16)
        ensures
            r == status_code(self),
    {
        match self {
            Status::Success => 200,
            Status::BadRequest => 400,
            Status::NotFound => 404,
            Status::Conflict => 409,
            Status::InternalServerError => 500,
        }
    }
}

/// What a reply carries: nothing, a line of text, or a value to be written as a record.
#[derive(Debug)]
pub enum Body<T> {
    Empty,
    Text(String),
    Json(T),
}

/// A reply to a request: its status and what it carries.
#[derive(Debug)]
pub struct Reply<T> {
    pub status: Status,
    pub body: Body<T>,
}

/// The reply has that status and carries nothing.
pub open spec fn is_empty_reply<T>(reply: Reply<T>, status: Status) -> bool {
    reply.status == status && reply.body is Empty
}

/// The reply has that status and carries that text.
pub open spec fn is_text_reply<T>(reply: Reply<T>, status: Status, text: Seq<char>) -> bool {
    reply.status == status && match reply.body {
        Body::Text(t) => t@ == text,
        _ => false,
    }
}

impl<T> Reply<T> {
    /// A reply that carries nothing.
    pub fn empty(status: Status) -> (r: Reply<T>)
        ensures
            is_empty_reply(r, status),
    {
        Reply { status, body: Body::Empty }
    }

    /// A reply that carries a line of text.
    pub fn text(status: Status, text: &str) -> (r: Reply<T>)
        ensures
            is_text_reply(r, status, text@),
    {
        Reply { status, body: Body::Text(String::from_str(text)) }
    }

    /// A reply of success that carries a value.
    pub fn json(value: T) -> (r: Reply<T>)
        ensures
            r.status == Status::Success,
            r.body == Body::Json(value),
    {
        Reply { status: Status::Success, body: Body::Json(value) }
    }
}

} // verus!
