//! The invocation bridge: decodes an inbound event, decides after each
//! submission whether to retry, wait or finish, and shapes the engine's reply.
//! The caller performs the submissions and the waits that it asks for.
use vstd::prelude::*;

verus! {

#[verifier::external_type_specification]
#[verifier::external_body]
pub struct ExJsonValue(serde_json::Value);

/// serde_json reads `bytes` as one JSON document.
pub uninterp spec fn json_accepts(bytes: Seq<u8>) -> bool;

/// Relies on `serde_json::from_slice` into `serde_json::Value`: it succeeds
/// exactly on the byte strings that hold one JSON document.
#[verifier::external_body]
fn parse_json(bytes: &[u8]) -> (r: Option<serde_json::Value>)
    ensures
        r is Some == json_accepts(bytes@),
{
    match serde_json::from_slice::<serde_json::Value>(bytes) {
        Ok(v) => Some(v),
        Err(_) => None,
    }
}

/// Why one invocation failed.
#[derive(Debug, PartialEq, Eq, Structural)]
pub enum BridgeError {
    /// The inbound payload is not a JSON request document.
    MalformedPayload,
    /// The engine replied with a missing or empty first chunk.
    EmptyEngineResponse,
    /// The engine could not be reached, and no attempt was left.
    EngineUnavailable,
    /// The engine failed otherwise, or replied with a body that is not JSON.
    EngineError,
}

/// The engine-native request, decoded from an inbound payload.
#[derive(Debug)]
pub struct EngineRequest {
    pub document: serde_json::Value,
}

/// The reply handed back to the host runtime.
#[derive(Debug)]
pub struct OutboundReply {
    pub status: u16,
    pub payload: serde_json::Value,
}

/// The status used when the engine exposes none: "ok".
pub const STATUS_OK: u16 = 200;

/// Decodes an inbound payload into a request; a payload that is not JSON is
/// malformed and is never submitted.
pub fn decode_payload(payload: &[u8]) -> (r: Result<EngineRequest, BridgeError>)
    ensures
        r is Ok == json_accepts(payload@),
        r is Err ==> r == Err::<EngineRequest, BridgeError>(BridgeError::MalformedPayload),
{
    match parse_json(payload) {
        Some(document) => Ok(EngineRequest { document }),
        None => Err(BridgeError::MalformedPayload),
    }
}

/// The status of the reply: the engine's own when it gives one, else `STATUS_OK`.
pub open spec fn reply_status(engine_status: Option<u16>) -> u16 {
    match engine_status {
        Some(s) => s,
        None => STATUS_OK,
    }
}

/// Shapes the engine's reply from its status and its first body chunk. A missing
/// or empty chunk is `EmptyEngineResponse`; a chunk that is not JSON is
/// `EngineError`.
pub fn decode_reply(engine_status: Option<u16>, first_chunk: Option<&[u8]>) -> (r: Result<
    OutboundReply,
    BridgeError,
>)
    ensures
        match first_chunk {
            None => r == Err::<OutboundReply, BridgeError>(BridgeError::EmptyEngineResponse),
            Some(c) => if c@.len() == 0 {
                r == Err::<OutboundReply, BridgeError>(BridgeError::EmptyEngineResponse)
            } else if json_accepts(c@) {
                r is Ok && r->Ok_0.status == reply_status(engine_status)
            } else {
                r == Err::<OutboundReply, BridgeError>(BridgeError::EngineError)
            },
        },
{
    let status = match engine_status {
        Some(s) => s,
        None => STATUS_OK,
    };
    match first_chunk {
        None => Err(BridgeError::EmptyEngineResponse),
        Some(c) => {
            if c.len() == 0 {
                Err(BridgeError::EmptyEngineResponse)
            } else {
                match parse_json(c) {
                    Some(payload) => Ok(OutboundReply { status, payload }),
                    None => Err(BridgeError::EngineError),
                }
            }
        },
    }
}

} // verus!
