//! What the service answers.

use vstd::prelude::*;

use crate::error::ServiceError;
use crate::record::PredictionRecord;

verus! {

/// An answer as a mathematical value.
pub enum Answer {
    /// The fields of the client's record, none where the store holds none.
    Found(Map<Seq<char>, u32>),
    /// The path is not that of a lookup.
    NotFound,
    /// The method is not that of a lookup.
    MethodNotAllowed,
    /// The request met a failure.
    Failed(ServiceError),
}

impl Answer {
    /// The HTTP status of the answer.
    pub open spec fn status_code(self) -> u16 {
        match self {
            Answer::Found(_) => 200,
            Answer::NotFound => 404,
            Answer::MethodNotAllowed => 405,
            Answer::Failed(error) => error.status_code(),
        }
    }
}

/// The answer to one request.
#[derive(Debug)]
pub enum Response {
    /// The client's record, to be sent as a JSON object with one member for
    /// each field: its name, and its score as a number. A client without a
    /// record gets the record without fields, that is `{}`.
    Found(PredictionRecord),
    /// The path is not that of a lookup.
    NotFound,
    /// The method is not that of a lookup.
    MethodNotAllowed,
    /// The request met a failure.
    Failed(ServiceError),
}

impl View for Response {
    type V = Answer;

    open spec fn view(&self) -> Answer {
        match self {
            Response::Found(record) => Answer::Found(record@),
            Response::NotFound => Answer::NotFound,
            Response::MethodNotAllowed => Answer::MethodNotAllowed,
            Response::Failed(error) => Answer::Failed(*error),
        }
    }
}

impl Response {
    /// The HTTP status to answer with: 200 with a record, and with nothing
    /// else.
    pub fn status(&self) -> (code: u16)
        ensures
            code == self@.status_code(),
            code == 200 <==> self is Found,
            self is Failed ==> 500 <= code < 600,
    {
        match self {
            Response::Found(_) => 200,
            Response::NotFound => 404,
            Response::MethodNotAllowed => 405,
            Response::Failed(error) => error.status(),
        }
    }

    /// The record to send, where the answer has one.
    pub fn record(&self) -> (record: Option<&PredictionRecord>)
        ensures
            match record {
                Some(found) => *self == Response::Found(*found),
                None => !(self is Found),
            },
    {
        match self {
            Response::Found(record) => Some(record),
            _ => None,
        }
    }

    /// The failure to report, where the answer is one.
    pub fn error(&self) -> (error: Option<ServiceError>)
        ensures
            match error {
                Some(met) => *self == Response::Failed(met),
                None => !(self is Failed),
            },
    {
        match self {
            Response::Failed(error) => Some(*error),
            _ => None,
        }
    }
}

} // verus!
