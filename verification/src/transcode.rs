//! Transcoding of call payloads and responses.
//!
//! The incoming HTTP request's payload is a base64 encoded JSON string, which
//! has to be transcoded to the conductor's wire bytes (msgpack-shaped, the
//! `ExternIO` container) to be passed through as the call payload. On the way
//! out, the call response is wire-encoded and needs to be converted to a JSON
//! string.

use vstd::prelude::*;
use vstd::string::*;
use crate::error::{ConductorError, HcHttpGatewayError, HcHttpGatewayResult};

verus! {

/// What base64's url-safe engine decodes a string to, if anything.
pub uninterp spec fn b64_decode_of(s: Seq<char>) -> Option<Seq<u8>>;

/// The canonical text of the JSON value that the bytes parse as, if they
/// parse at all.
pub uninterp spec fn json_parse_of(b: Seq<u8>) -> Option<Seq<char>>;

/// The canonical text of a JSON value: what serde_json prints for it.
pub uninterp spec fn json_text_of(v: serde_json::Value) -> Seq<char>;

/// The wire bytes that the conductor's wire encoding produces for the JSON
/// value with the given canonical text.
pub uninterp spec fn wire_of(t: Seq<char>) -> Seq<u8>;

/// The canonical text of the JSON value that the wire bytes decode to, if
/// they decode at all.
pub uninterp spec fn unwire_of(b: Seq<u8>) -> Option<Seq<char>>;

/// Whether the conductor's wire encoding succeeds on the JSON value with the
/// given canonical text. Encoding only fails past a nesting depth far beyond
/// what the parser admits, so every text obtained from a parse satisfies it.
pub uninterp spec fn wire_ok(t: Seq<char>) -> bool;

#[verifier::external_type_specification]
#[verifier::external_body]
pub struct ExValue(serde_json::Value);

/// Relies on base64's `BASE64_URL_SAFE` engine (url-safe alphabet, padding
/// required): whether and to which bytes a string decodes depends on its
/// characters alone.
#[verifier::external_body]
fn b64_decode(s: &str) -> (r: Option<Vec<u8>>)
    ensures
        match r {
            Some(v) => b64_decode_of(s@) == Some(v@),
            None => b64_decode_of(s@) is None,
        },
{
    base64::Engine::decode(&base64::prelude::BASE64_URL_SAFE, s).ok()
}

/// Relies on `serde_json::from_slice::<Value>`: whether bytes parse as JSON,
/// and which value they denote, depend on the bytes alone. A parsed value
/// nests at most 128 levels deep, far within what the wire encoding accepts,
/// so its text is wire-encodable.
#[verifier::external_body]
fn json_parse(bytes: &Vec<u8>) -> (r: Option<serde_json::Value>)
    ensures
        match r {
            Some(v) => json_parse_of(bytes@) == Some(json_text_of(v)) && wire_ok(json_text_of(v)),
            None => json_parse_of(bytes@) is None,
        },
{
    serde_json::from_slice::<serde_json::Value>(bytes.as_slice()).ok()
}

/// Relies on serde_json's `Display` for `Value`, which prints the canonical
/// text of the value.
#[verifier::external_body]
fn json_to_string(v: &serde_json::Value) -> (r: String)
    ensures
        r@ == json_text_of(*v),
{
    v.to_string()
}

/// Relies on `serde_json::Value::Null` printing as the literal text `null`,
/// a flat value that the wire encoding accepts.
#[verifier::external_body]
fn json_null() -> (r: serde_json::Value)
    ensures
        json_text_of(r) == "null"@,
        wire_ok(json_text_of(r)),
{
    serde_json::Value::Null
}

/// Relies on `ExternIO::encode` (msgpack via holochain_serialized_bytes): the
/// wire bytes of a JSON value depend on the value alone, encoding fails only
/// past the serializer's nesting bound, and decoding the bytes yields the
/// value back.
#[verifier::external_body]
fn wire_encode(v: &serde_json::Value) -> (r: Result<Vec<u8>, String>)
    ensures
        wire_ok(json_text_of(*v)) ==> r is Ok,
        r matches Ok(w) ==> w@ == wire_of(json_text_of(*v)) && unwire_of(w@) == Some(
            json_text_of(*v),
        ),
{
    match holochain_zome_types::prelude::ExternIO::encode(v) {
        Ok(io) => Ok(io.into_vec()),
        Err(e) => Err(format!("{e}")),
    }
}

/// Relies on `ExternIO::decode::<Value>` (msgpack): whether bytes decode as a
/// JSON value, and which value, depend on the bytes alone.
#[verifier::external_body]
fn wire_decode(bytes: &Vec<u8>) -> (r: Option<serde_json::Value>)
    ensures
        match r {
            Some(v) => unwire_of(bytes@) == Some(json_text_of(v)),
            None => unwire_of(bytes@) is None,
        },
{
    holochain_zome_types::prelude::ExternIO::from(bytes.clone()).decode::<serde_json::Value>().ok()
}

/// The canonical JSON text that an optional base64 payload denotes: `null`
/// for an absent payload, otherwise the text of the decoded and parsed value;
/// the error text when decoding or parsing fails.
pub open spec fn payload_text_of(p: Option<Seq<char>>) -> Result<Seq<char>, Seq<char>> {
    match p {
        None => Ok("null"@),
        Some(enc) => match b64_decode_of(enc) {
            None => Err("Invalid base64 encoding"@),
            Some(bytes) => match json_parse_of(bytes) {
                None => Err("Invalid JSON value"@),
                Some(t) => Ok(t),
            },
        },
    }
}

/// Transcode an optional base64 encoded payload to the conductor's wire
/// bytes. If no payload is passed in, the JSON value `null` is encoded.
/// Exactly the payloads whose text is well formed are encoded, and decoding
/// the wire bytes yields that text back.
pub fn base64_json_to_hsb(maybe_base64_encoded_payload: Option<String>) -> (r: HcHttpGatewayResult<
    Vec<u8>,
>)
    ensures
        match payload_text_of(match maybe_base64_encoded_payload {
            Some(p) => Some(p@),
            None => None,
        }) {
            Ok(t) => r matches Ok(w) && w@ == wire_of(t) && unwire_of(w@) == Some(t),
            Err(msg) => r matches Err(HcHttpGatewayError::RequestMalformed(m)) && m@ == msg,
        },
{
    let json_payload: serde_json::Value = match maybe_base64_encoded_payload {
        Some(base64_encoded_payload) => {
            let decoded = match b64_decode(base64_encoded_payload.as_str()) {
                Some(d) => d,
                None => {
                    return Err(
                        HcHttpGatewayError::RequestMalformed(
                            String::from_str("Invalid base64 encoding"),
                        ),
                    );
                },
            };
            match json_parse(&decoded) {
                Some(v) => v,
                None => {
                    return Err(
                        HcHttpGatewayError::RequestMalformed(
                            String::from_str("Invalid JSON value"),
                        ),
                    );
                },
            }
        },
        None => json_null(),
    };
    match wire_encode(&json_payload) {
        Ok(w) => Ok(w),
        Err(e) => {
            let mut msg = String::from_str("Failure to serialize payload - ");
            msg.append(e.as_str());
            Err(HcHttpGatewayError::RequestMalformed(msg))
        },
    }
}

/// Transcode a call response from the conductor's wire bytes to a JSON
/// string. Bytes that do not decode as a JSON value are reported as a
/// transport-level conductor error.
pub fn hsb_to_json(hsb_encoded_response: &Vec<u8>) -> (r: HcHttpGatewayResult<String>)
    ensures
        match unwire_of(hsb_encoded_response@) {
            Some(t) => r matches Ok(s) && s@ == t,
            None => r matches Err(HcHttpGatewayError::HolochainError(ConductorError::Websocket(_))),
        },
{
    match wire_decode(hsb_encoded_response) {
        Some(v) => Ok(json_to_string(&v)),
        None => Err(
            HcHttpGatewayError::HolochainError(
                ConductorError::Websocket(
                    String::from_str("could not deserialize the zome call response"),
                ),
            ),
        ),
    }
}

/// The number of `=` padding bytes at the end of the byte sequence.
pub open spec fn trailing_eq_count(b: Seq<u8>) -> int
    decreases b.len(),
{
    if b.len() > 0 && b.last() == 61 {
        1 + trailing_eq_count(b.drop_last())
    } else {
        0
    }
}

/// The decoded size that a base64 payload of this shape would have: three
/// bytes for every four encoded bytes that carry data, where trailing `=`
/// padding carries none. The length in question is the byte length of the
/// payload's UTF-8 form.
pub open spec fn b64_decoded_size_estimate(s: Seq<char>) -> int {
    let b = vstd::utf8::encode_utf8(s);
    (b.len() - trailing_eq_count(b)) * 3 / 4
}

proof fn lemma_trailing_eq(b: Seq<u8>, i: int)
    requires
        0 <= i <= b.len(),
        forall|k: int| i <= k < b.len() ==> b[k] == 61,
        i == 0 || b[i - 1] != 61,
    ensures
        trailing_eq_count(b) == b.len() - i,
    decreases b.len(),
{
    if b.len() == 0 {
    } else if i == b.len() {
        assert(b.last() != 61);
    } else {
        assert(b.last() == 61);
        assert(forall|k: int| i <= k < b.drop_last().len() ==> b.drop_last()[k] == #[trigger] b[k]);
        if i > 0 {
            assert(b.drop_last()[i - 1] == b[i - 1]);
        }
        lemma_trailing_eq(b.drop_last(), i);
    }
}

/// Calculate the approximate decoded size of a base64 payload without
/// actually decoding it: every four bytes represent three bytes of decoded
/// data, and `=` padding bytes carry none.
pub fn calculate_base64_decoded_size(encoded_payload: &str) -> (r: usize)
    ensures
        r == b64_decoded_size_estimate(encoded_payload@),
{
    let bytes = encoded_payload.as_bytes();
    let len = bytes.len();
    proof {
        assert(bytes@ == vstd::utf8::encode_utf8(encoded_payload@));
    }
    let mut i: usize = len;
    while i > 0 && *vstd::slice::slice_index_get(bytes, i - 1) == 61u8
        invariant
            len == bytes@.len(),
            bytes@ == vstd::utf8::encode_utf8(encoded_payload@),
            0 <= i <= len,
            forall|k: int| i <= k < len ==> bytes@[k] == 61,
        decreases i,
    {
        i = i - 1;
    }
    proof {
        lemma_trailing_eq(bytes@, i as int);
    }
    // Compute (i * 3) / 4 without intermediate overflow.
    let r = (i / 4) * 3 + ((i % 4) * 3) / 4;
    proof {
        let q = i as int / 4;
        let m = i as int % 4;
        vstd::arithmetic::div_mod::lemma_fundamental_div_mod(i as int, 4);
        assert(i as int * 3 == 4 * (q * 3) + m * 3) by (nonlinear_arith)
            requires
                i as int == 4 * q + m,
        ;
        assert(0 <= m * 3 < 12);
        if m == 0 {
            vstd::arithmetic::div_mod::lemma_div_multiples_vanish_fancy(q * 3, 0, 4);
        } else if m == 1 {
            vstd::arithmetic::div_mod::lemma_div_multiples_vanish_fancy(q * 3, 3, 4);
        } else if m == 2 {
            assert(i as int * 3 == 4 * (q * 3 + 1) + 2) by (nonlinear_arith)
                requires
                    i as int == 4 * q + m,
                    m == 2,
            ;
            vstd::arithmetic::div_mod::lemma_div_multiples_vanish_fancy(q * 3 + 1, 2, 4);
        } else {
            assert(i as int * 3 == 4 * (q * 3 + 2) + 1) by (nonlinear_arith)
                requires
                    i as int == 4 * q + m,
                    m == 3,
            ;
            vstd::arithmetic::div_mod::lemma_div_multiples_vanish_fancy(q * 3 + 2, 1, 4);
        }
        assert(r == (i as int * 3) / 4);
    }
    r
}

} // verus!
