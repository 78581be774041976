//! Decoding one response per the descriptor's response kind.
//!
//! A status-code operation yields only the status, for success and
//! non-success alike; a non-success status is never itself an error at
//! this layer.  Text and bytes operations yield the body as the
//! transport handed it over; a decoded-object operation parses the body
//! as a flat record and fails only where the body is not a canonical
//! record encoding.

use vstd::prelude::*;
use crate::descriptor::ResponseKind;
use crate::encode::json_record;
use crate::json::{json_parse, json_parse_spec};
use crate::value::{FieldModel, Record};

verus! {

/// One decoded response, per the descriptor's response kind.
#[derive(Debug, PartialEq, Eq)]
pub enum RequestOutcome {
    /// The response status alone.
    Status(u16),
    /// The textual body, as bytes.
    Text(Vec<u8>),
    /// The raw body bytes.
    Raw(Vec<u8>),
    /// The body decoded as a flat record.
    Decoded(Record),
}

/// The mathematical model of a [`RequestOutcome`].
#[verifier::ext_equal]
pub enum RequestOutcomeModel {
    /// The response status alone.
    Status(u16),
    /// The textual body, as bytes.
    Text(Seq<u8>),
    /// The raw body bytes.
    Raw(Seq<u8>),
    /// The body decoded as a flat record.
    Decoded(Seq<FieldModel>),
}

impl View for RequestOutcome {
    type V = RequestOutcomeModel;

    open spec fn view(&self) -> RequestOutcomeModel {
        match self {
            RequestOutcome::Status(st) => RequestOutcomeModel::Status(*st),
            RequestOutcome::Text(t) => RequestOutcomeModel::Text(t@),
            RequestOutcome::Raw(b) => RequestOutcomeModel::Raw(b@),
            RequestOutcome::Decoded(r) => RequestOutcomeModel::Decoded(r@),
        }
    }
}

/// The response body cannot be converted to the declared response kind.
#[derive(Clone, Copy, PartialEq, Eq, Structural, Debug)]
pub enum DecodeError {
    /// The body is not a canonical flat-record encoding.
    MalformedBody,
}

/// Decodes one response per the response kind.  A status-code operation
/// returns the exact status for every response, success or not; text and
/// bytes operations return the body unchanged; a decoded-object
/// operation returns the record whose canonical encoding the body is,
/// and `MalformedBody` exactly where the body is no such encoding.
pub fn decode_response(kind: &ResponseKind, status: u16, body: Vec<u8>) -> (r: Result<
    RequestOutcome,
    DecodeError,
>)
    ensures
        kind is StatusCode ==> (r matches Ok(o) && o == RequestOutcome::Status(status)),
        kind is Text ==> (r matches Ok(o) && o@ == RequestOutcomeModel::Text(body@)),
        kind is Bytes ==> (r matches Ok(o) && o@ == RequestOutcomeModel::Raw(body@)),
        kind is DecodedObject ==> match r {
            Result::Ok(o) => o matches RequestOutcome::Decoded(rec) && json_parse_spec(body@)
                == Some(rec@) && json_record(rec@) == body@,
            Result::Err(e) => e == DecodeError::MalformedBody && json_parse_spec(body@)
                is None,
        },
{
    match kind {
        ResponseKind::StatusCode => Ok(RequestOutcome::Status(status)),
        ResponseKind::Text => Ok(RequestOutcome::Text(body)),
        ResponseKind::Bytes => Ok(RequestOutcome::Raw(body)),
        ResponseKind::DecodedObject => match json_parse(&body) {
            Option::Some(rec) => Ok(RequestOutcome::Decoded(rec)),
            Option::None => Err(DecodeError::MalformedBody),
        },
    }
}

} // verus!

