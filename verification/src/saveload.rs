use vstd::prelude::*;
use serde_json::Value;

verus! {

/// A JSON value of `serde_json`: the form in which a model is saved.
#[verifier::external_type_specification]
#[verifier::external_body]
pub struct ExValue(Value);

/// The error that `rmp_serde` reports when encoding fails.
#[verifier::external_type_specification]
#[verifier::external_body]
pub struct ExEncodeError(rmp_serde::encode::Error);

/// The error that `rmp_serde` reports when decoding fails.
#[verifier::external_type_specification]
#[verifier::external_body]
pub struct ExDecodeError(rmp_serde::decode::Error);

/// The MessagePack bytes that `rmp_serde::to_vec` produces for a value, or
/// `None` when it refuses the value.
pub uninterp spec fn msgpack_encoding(value: Value) -> Option<Seq<u8>>;

/// The value that `rmp_serde::from_slice` reads from the bytes, or `None`
/// when it refuses them.
pub uninterp spec fn msgpack_decoding(bytes: Seq<u8>) -> Option<Value>;

/// Calls `rmp_serde::to_vec` on a JSON value. The result depends on the
/// value alone; its bytes, or its refusal, are named `msgpack_encoding`.
#[verifier::external_body]
fn msgpack_to_vec(value: &Value) -> (r: Result<Vec<u8>, rmp_serde::encode::Error>)
    ensures
        r is Ok <==> msgpack_encoding(*value) is Some,
        r is Ok ==> r->Ok_0@ == msgpack_encoding(*value)->Some_0,
{
    rmp_serde::to_vec(value)
}

/// Calls `rmp_serde::from_slice` to read a JSON value from MessagePack
/// bytes. The result depends on the bytes alone and is named
/// `msgpack_decoding`. The source reads a marker byte first, so an empty
/// input is refused.
#[verifier::external_body]
fn msgpack_from_slice(bytes: &[u8]) -> (r: Result<Value, rmp_serde::decode::Error>)
    ensures
        r is Ok <==> msgpack_decoding(bytes@) is Some,
        r is Ok ==> r->Ok_0 == msgpack_decoding(bytes@)->Some_0,
        bytes@.len() == 0 ==> r is Err,
{
    rmp_serde::from_slice(bytes)
}

/// Calls `to_string` on an encoding error (its `Display` text). Nothing is
/// stated of the text.
#[verifier::external_body]
fn encode_error_text(e: &rmp_serde::encode::Error) -> String {
    e.to_string()
}

/// Calls `to_string` on a decoding error (its `Display` text). Nothing is
/// stated of the text.
#[verifier::external_body]
fn decode_error_text(e: &rmp_serde::decode::Error) -> String {
    e.to_string()
}

/// Why a model could not be turned into bytes or back; each carries the
/// encoder's or decoder's own message.
#[derive(Debug, Clone, PartialEq, Eq)]
pub enum ModelIoError {
    Encode(String),
    Decode(String),
}

/// The MessagePack bytes of a saved model, or `Encode` with the encoder's
/// message when the encoder refuses the value.
pub fn encode_model(value: &Value) -> (r: Result<Vec<u8>, ModelIoError>)
    ensures
        r is Ok <==> msgpack_encoding(*value) is Some,
        r is Ok ==> r->Ok_0@ == msgpack_encoding(*value)->Some_0,
        r is Err ==> r->Err_0 is Encode,
{
    match msgpack_to_vec(value) {
        Ok(bytes) => Ok(bytes),
        Err(e) => Err(ModelIoError::Encode(encode_error_text(&e))),
    }
}

/// The model read back from MessagePack bytes, or `Decode` with the
/// decoder's message when the decoder refuses them (always for no bytes).
pub fn decode_model(bytes: &[u8]) -> (r: Result<Value, ModelIoError>)
    ensures
        r is Ok <==> msgpack_decoding(bytes@) is Some,
        r is Ok ==> r->Ok_0 == msgpack_decoding(bytes@)->Some_0,
        r is Err ==> r->Err_0 is Decode,
        bytes@.len() == 0 ==> r is Err,
{
    match msgpack_from_slice(bytes) {
        Ok(v) => Ok(v),
        Err(e) => Err(ModelIoError::Decode(decode_error_text(&e))),
    }
}

} // verus!
