use lambda_router::bridge::{decode_payload, decode_reply, BridgeError, STATUS_OK};

#[test]
fn malformed_payload_is_rejected() {
    assert_eq!(decode_payload(b"not json").unwrap_err(), BridgeError::MalformedPayload);
    assert_eq!(decode_payload(b"").unwrap_err(), BridgeError::MalformedPayload);
    assert_eq!(decode_payload(b"{\"query\": ").unwrap_err(), BridgeError::MalformedPayload);
}

#[test]
fn request_document_is_decoded() {
    let r = decode_payload(b"{\"query\":\"{ me { id } }\",\"operationName\":null}").unwrap();
    assert_eq!(r.document["query"], serde_json::Value::String("{ me { id } }".to_string()));
    assert!(r.document["operationName"].is_null());
}

#[test]
fn empty_first_chunk_is_an_error() {
    assert_eq!(decode_reply(Some(200), Some(b"")).unwrap_err(), BridgeError::EmptyEngineResponse);
}

#[test]
fn missing_first_chunk_is_an_error() {
    assert_eq!(decode_reply(None, None).unwrap_err(), BridgeError::EmptyEngineResponse);
}

#[test]
fn non_json_body_is_an_engine_error() {
    assert_eq!(decode_reply(Some(200), Some(b"<html>")).unwrap_err(), BridgeError::EngineError);
}

#[test]
fn engine_status_is_copied() {
    let r = decode_reply(Some(400), Some(b"{\"errors\":[]}")).unwrap();
    assert_eq!(r.status, 400);
    assert!(r.payload["errors"].is_array());
}

#[test]
fn missing_status_is_ok() {
    let r = decode_reply(None, Some(b"{\"data\":{\"me\":null}}")).unwrap();
    assert_eq!(r.status, STATUS_OK);
    assert_eq!(STATUS_OK, 200);
    assert!(r.payload["data"]["me"].is_null());
}
