//! Decoding of realtime message payloads.
//!
//! A data event's payload is a JSON object with a string `action` and a
//! `record` value.  Whether a payload decodes, and which action it
//! carries, depend on the payload's bytes alone, so both get names the
//! contracts speak of exactly.  A payload that does not decode is
//! dropped by the caller; it must never surface an error.

use vstd::prelude::*;

verus! {

#[verifier::external_type_specification]
#[verifier::external_body]
pub struct ExJsonValue(serde_json::Value);

/// Whether the bytes parse as a JSON document; serde_json's answer
/// depends on the bytes alone.
pub uninterp spec fn json_parses(bytes: Seq<u8>) -> bool;

/// Whether the bytes decode as a realtime message: a JSON object
/// carrying a string `action` member and a `record` member.
pub uninterp spec fn msg_decodes(bytes: Seq<u8>) -> bool;

/// The `action` carried by bytes that decode as a realtime message.
pub uninterp spec fn msg_action_of(bytes: Seq<u8>) -> Seq<char>;

/// Relies on serde_json::Value's Clone; the message's own Clone derive
/// calls it.
pub assume_specification[ <serde_json::Value as Clone>::clone ](v: &serde_json::Value) -> (r:
    serde_json::Value);

/// A realtime message pushed by the server: the action that occurred
/// and the record it concerns.
#[derive(Debug, Clone)]
pub struct RealtimeMessage {
    /// The action, such as `create`, `update` or `delete`.
    pub action: String,
    /// The record payload, opaque to the engine.
    pub record: serde_json::Value,
}

/// Relies on serde_json::from_slice and serde_json::Value's `get`,
/// `as_str` and `Clone`: the bytes decode exactly when they parse as a
/// JSON object with a string `action` and a `record` member, and both
/// the success and the action depend on the bytes alone.  Bytes that
/// do not parse as JSON never decode.
#[verifier::external_body]
pub(crate) fn decode_message(data: &Vec<u8>) -> (r: Option<RealtimeMessage>)
    ensures
        r is Some <==> msg_decodes(data@),
        r matches Option::Some(m) ==> m.action@ == msg_action_of(data@),
        !json_parses(data@) ==> r is None,
{
    let v: serde_json::Value = match serde_json::from_slice(data.as_slice()) {
        Ok(v) => v,
        Err(_) => return None,
    };
    let action = match v.get("action").and_then(|a| a.as_str()) {
        Some(s) => s.to_owned(),
        None => return None,
    };
    match v.get("record") {
        Some(rec) => Some(RealtimeMessage { action, record: rec.clone() }),
        None => None,
    }
}

} // verus!
