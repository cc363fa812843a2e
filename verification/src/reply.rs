//! What goes back to the caller after an operation, and whether the store
//! has to be written out.

use crate::model::{RecordModel, StoreError};
use crate::record::Record;
use crate::value::{json_string_text, Value};
use vstd::prelude::*;

verus! {

/// The words that tell a caller of the error `e`.
pub open spec fn message_text(e: StoreError) -> Seq<char> {
    match e {
        StoreError::NotFound => "Not found"@,
        StoreError::InvalidIdentifierType => "Invalid ID type"@,
    }
}

/// The name of the one field of an error payload: `error`.
pub open spec fn error_field() -> Seq<char> {
    seq!['e', 'r', 'r', 'o', 'r']
}

/// The payload that reports the error `e`: one field, `error`, that holds
/// the error's message as a JSON string.
pub open spec fn error_payload(e: StoreError) -> RecordModel {
    Map::<Seq<char>, Seq<char>>::empty().insert(
        error_field(),
        json_string_text(message_text(e)),
    )
}

/// The payload that answers a request that ended in `outcome`: the record
/// itself, or the payload that reports the error.
pub open spec fn response_payload(outcome: Result<Record, StoreError>) -> RecordModel {
    match outcome {
        Ok(record) => record@,
        Err(e) => error_payload(e),
    }
}

/// The words that tell a caller of the error `e`.
pub fn message(e: StoreError) -> (m: &'static str)
    ensures
        m@ == message_text(e),
{
    match e {
        StoreError::NotFound => "Not found",
        StoreError::InvalidIdentifierType => "Invalid ID type",
    }
}

/// The payload that reports the error `e`.
pub fn error_body(e: StoreError) -> (body: Record)
    ensures
        body@ == error_payload(e),
{
    proof {
        reveal_strlit("error");
        assert("error"@ =~= error_field());
    }
    let mut body = Record::new();
    body.set("error", Value::string(message(e)));
    body
}

/// The payload that answers a request that ended in `outcome`. An error is
/// reported in the payload and in no other way.
pub fn response_body(outcome: Result<Record, StoreError>) -> (body: Record)
    ensures
        body@ == response_payload(outcome),
{
    match outcome {
        Ok(record) => record,
        Err(e) => error_body(e),
    }
}

/// Whether the store has to be written out after a create, replace, update
/// or delete that ended in `outcome`. It is written out after each one that
/// succeeded. One that failed has changed nothing, so nothing is written.
pub fn flush_needed(outcome: &Result<Record, StoreError>) -> (flush: bool)
    ensures
        flush == (outcome is Ok),
{
    outcome.is_ok()
}

} // verus!
