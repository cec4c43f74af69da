//! The record that is archived for one invocation, and its JSON form.

use vstd::prelude::*;
use crate::event::InvokeEvent;
use crate::error::SerializationError;
use crate::frame::{frame, lemma_unframed, record_json, unframe, unframed};
use crate::json::{
    encode_string, json_string, json_string_value, lemma_json_string_is_token,
    lemma_json_string_value, read_string,
};

verus! {

/// What is kept of an invocation: its deadline, its request identifier and the function's
/// resource name.
#[derive(Debug, Clone, PartialEq, Eq)]
pub struct CustomEvent {
    pub deadline_ms: u64,
    pub request_id: String,
    pub invoked_function_arn: String,
}

/// The mathematical value of a `CustomEvent`.
pub ghost struct CustomEventView {
    pub deadline_ms: u64,
    pub request_id: Seq<char>,
    pub invoked_function_arn: Seq<char>,
}

impl View for CustomEvent {
    type V = CustomEventView;

    open spec fn view(&self) -> CustomEventView {
        CustomEventView {
            deadline_ms: self.deadline_ms,
            request_id: self.request_id@,
            invoked_function_arn: self.invoked_function_arn@,
        }
    }
}

/// What is kept of the invocation `e`.
pub open spec fn archived(e: InvokeEvent) -> CustomEventView {
    CustomEventView {
        deadline_ms: e.deadline_ms,
        request_id: e.request_id@,
        invoked_function_arn: e.invoked_function_arn@,
    }
}

impl CustomEventView {
    /// The JSON object of the record.
    pub open spec fn json(self) -> Seq<u8> {
        record_json(
            self.deadline_ms,
            json_string(self.request_id),
            json_string(self.invoked_function_arn),
        )
    }
}

/// The record that `body` holds: `body` is the JSON object of a record, from which the
/// deadline is taken as it stands and each string as its token tells. `None` where `body` is
/// no such object or one of the two tokens stands for no string.
pub open spec fn read_json(body: Seq<u8>) -> Option<CustomEventView> {
    match unframed(body) {
        Some((deadline_ms, request_id_json, arn_json)) => match (
            json_string_value(request_id_json),
            json_string_value(arn_json),
        ) {
            (Some(request_id), Some(invoked_function_arn)) => Some(
                CustomEventView { deadline_ms, request_id, invoked_function_arn },
            ),
            _ => None,
        },
        None => None,
    }
}

/// Writing a record and reading the object back gives the record itself, whatever its
/// deadline and its two strings are.
pub proof fn lemma_round_trip(record: CustomEventView)
    ensures
        read_json(record.json()) == Some(record),
{
    let request_id_json = json_string(record.request_id);
    let arn_json = json_string(record.invoked_function_arn);
    lemma_json_string_is_token(record.request_id);
    lemma_json_string_is_token(record.invoked_function_arn);
    lemma_unframed(record.json(), record.deadline_ms, request_id_json, arn_json);
    lemma_json_string_value(record.request_id);
    lemma_json_string_value(record.invoked_function_arn);
}

impl CustomEvent {
    /// Keeps the three archived fields of an invocation.
    pub fn from(e: InvokeEvent) -> (record: CustomEvent)
        ensures
            record@ == archived(e),
    {
        CustomEvent {
            deadline_ms: e.deadline_ms,
            request_id: e.request_id,
            invoked_function_arn: e.invoked_function_arn,
        }
    }

    /// The JSON object of a record with the deadline `deadline_ms`, given what encoding each
    /// of its two strings came to: the object framed around the two tokens, or the error of
    /// the first string that could not be encoded.
    pub fn assemble(
        deadline_ms: u64,
        request_id_json: Result<Vec<u8>, serde_json::Error>,
        arn_json: Result<Vec<u8>, serde_json::Error>,
    ) -> (body: Result<Vec<u8>, SerializationError>)
        ensures
            match (request_id_json, arn_json) {
                (Ok(first), Ok(second)) => body matches Ok(bytes) && bytes@ == record_json(
                    deadline_ms,
                    first@,
                    second@,
                ),
                (Err(source), _) => body matches Err(error) && error.source == source,
                (Ok(_), Err(source)) => body matches Err(error) && error.source == source,
            },
    {
        match request_id_json {
            Err(source) => Err(SerializationError { source }),
            Ok(first) => match arn_json {
                Err(source) => Err(SerializationError { source }),
                Ok(second) => Ok(frame(deadline_ms, first.as_slice(), second.as_slice())),
            },
        }
    }

    /// The JSON object of the record, with its strings encoded by serde_json, which
    /// encodes every string: the outcome is never an error.
    pub fn to_json(&self) -> (body: Result<Vec<u8>, SerializationError>)
        ensures
            body is Ok,
            body matches Ok(bytes) ==> bytes@ == self@.json(),
    {
        let request_id_json = encode_string(self.request_id.as_str());
        let arn_json = encode_string(self.invoked_function_arn.as_str());
        Self::assemble(self.deadline_ms, request_id_json, arn_json)
    }

    /// Reads a record from its JSON object, with its strings decoded by serde_json. What
    /// `to_json` wrote for a record is read as that record.
    pub fn from_json(body: &[u8]) -> (record: Option<CustomEvent>)
        ensures
            match record {
                Some(read) => read_json(body@) == Some(read@),
                None => read_json(body@) is None,
            },
            match record {
                Some(read) => forall|written: CustomEventView|
                    body@ == #[trigger] written.json() ==> written == read@,
                None => forall|written: CustomEventView| body@ != #[trigger] written.json(),
            },
    {
        proof {
            assert forall|written: CustomEventView| body@ == #[trigger] written.json() implies
                read_json(body@) == Some(written) by {
                lemma_round_trip(written);
            }
        }
        match unframe(body) {
            None => {
                proof {
                    if unframed(body@) is Some {
                        let parts = unframed(body@)->0;
                        lemma_unframed(body@, parts.0, parts.1, parts.2);
                    }
                }
                None
            },
            Some((deadline_ms, request_id_json, arn_json)) => {
                proof {
                    lemma_unframed(body@, deadline_ms, request_id_json@, arn_json@);
                }
                match read_string(request_id_json) {
                    None => None,
                    Some(request_id) => match read_string(arn_json) {
                        None => None,
                        Some(invoked_function_arn) => Some(
                            CustomEvent { deadline_ms, request_id, invoked_function_arn },
                        ),
                    },
                }
            },
        }
    }
}

} // verus!
