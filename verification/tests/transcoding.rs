//! Tests for payload and response transcoding.

use base64::prelude::BASE64_URL_SAFE;
use base64::Engine;
use hc_http_gw::{base64_json_to_hsb, calculate_base64_decoded_size, hsb_to_json};
use hc_http_gw::HcHttpGatewayError;
use holochain_zome_types::prelude::ExternIO;

#[test]
fn happy_no_payload_encode() {
    // No payload needs to be encoded for zome call invocation too. Test that a unit value is encoded.
    let hsb_encoded_payload = base64_json_to_hsb(None).unwrap();

    // Deserializing the serialized bytes to the original value should succeed.
    ExternIO::from(hsb_encoded_payload).decode::<()>().unwrap();
}

#[test]
fn happy_base64_json_to_hsb() {
    // Create a payload as JSON text and base64 encode it.
    let json_payload = "{\"field\":false}".to_string();
    let base64_encoded_payload = BASE64_URL_SAFE.encode(json_payload);

    let hsb_encoded_payload = base64_json_to_hsb(Some(base64_encoded_payload)).unwrap();

    // Deserializing the serialized bytes to the original value should succeed.
    let decoded_payload = ExternIO::from(hsb_encoded_payload)
        .decode::<serde_json::Value>()
        .unwrap();
    let mut fields = serde_json::Map::new();
    fields.insert("field".to_string(), serde_json::Value::Bool(false));
    let payload = serde_json::Value::Object(fields);
    assert_eq!(decoded_payload, payload);
}

#[test]
fn plain_json_to_hsb_fails() {
    let json_payload = "{\"field\":false}".to_string();

    let result = base64_json_to_hsb(Some(json_payload));
    if let Err(HcHttpGatewayError::RequestMalformed(err)) = result {
        assert_eq!(err, "Invalid base64 encoding");
    } else {
        panic!("Expected a RequestMalformed error");
    }
}

#[test]
fn invalid_json_to_hsb_fails() {
    let base64_encoded_payload = BASE64_URL_SAFE.encode("invalid");

    let result = base64_json_to_hsb(Some(base64_encoded_payload));
    if let Err(HcHttpGatewayError::RequestMalformed(err)) = result {
        assert_eq!(err, "Invalid JSON value");
    } else {
        panic!("Expected a RequestMalformed error");
    }
}

#[test]
fn happy_hsb_to_json() {
    let values = vec![
        serde_json::Value::String("value1".to_string()),
        serde_json::Value::String("value2".to_string()),
    ];
    let mut fields = serde_json::Map::new();
    fields.insert("value".to_string(), serde_json::Value::Array(values));
    let response = serde_json::Value::Object(fields);

    let msgpack_encoded_response = ExternIO::encode(response.clone()).unwrap();

    let json_response = hsb_to_json(&msgpack_encoded_response.into_vec()).unwrap();

    let expected_json_response = serde_json::to_string(&response).unwrap();
    assert_eq!(json_response, expected_json_response);
}

#[test]
fn round_trip_preserves_the_payload() {
    // A value encoded in and decoded out comes back in canonical text form.
    let json_payload = "{\"a\":[1,2],\"b\":\"x\"}".to_string();
    let encoded = BASE64_URL_SAFE.encode(&json_payload);

    let wire = base64_json_to_hsb(Some(encoded)).unwrap();
    let back = hsb_to_json(&wire).unwrap();

    assert_eq!(back, json_payload);
}

#[test]
fn undecodable_response_is_a_conductor_error() {
    let result = hsb_to_json(&vec![0xc1u8]);
    assert!(matches!(
        result,
        Err(HcHttpGatewayError::HolochainError(
            hc_http_gw::ConductorError::Websocket(_)
        ))
    ));
}

#[test]
fn decoded_size_estimate_accounts_for_padding() {
    assert_eq!(calculate_base64_decoded_size(""), 0);
    assert_eq!(calculate_base64_decoded_size("QUJD"), 3);
    assert_eq!(calculate_base64_decoded_size("QUI="), 2);
    assert_eq!(calculate_base64_decoded_size("QQ=="), 1);
    assert_eq!(calculate_base64_decoded_size("QUJDRA=="), 4);
}

#[test]
fn decoded_size_estimate_counts_bytes() {
    // The estimate works on the byte length of the input, not its character
    // count: a one-character, two-byte input yields (2 * 3) / 4 == 1.
    assert_eq!("\u{e9}".len(), 2);
    assert_eq!(calculate_base64_decoded_size("\u{e9}"), 1);
}
