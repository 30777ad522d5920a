//! `TextEncoder` and `TextDecoder`: strings and their UTF-8 bytes.

use crate::text::{bytes_of, decode_lossy, lossy_text};
use vstd::prelude::*;
use vstd::utf8::{encode_utf8, encode_utf8_decode_utf8, encode_utf8_valid_utf8};

verus! {

/// `TextEncoder`.
#[derive(Debug)]
pub struct JsTextEncoder {}

impl JsTextEncoder {
    /// `new TextEncoder()`.
    pub fn new() -> Self {
        JsTextEncoder {  }
    }

    /// The UTF-8 bytes of a string.
    pub fn encode(&self, input: &str) -> (r: Vec<u8>)
        ensures
            r@ == encode_utf8(input@),
    {
        bytes_of(input)
    }
}

/// The argument of `decode` is no array whose bytes can be read.
#[derive(Debug, Clone, Copy, PartialEq, Eq, Structural)]
pub struct InvalidTypedArray;

impl InvalidTypedArray {
    /// The message that the JavaScript exception carries.
    pub fn message(&self) -> (r: String)
        ensures
            r@ == "TextDecoder: invalid typed array"@,
    {
        "TextDecoder: invalid typed array".to_string()
    }
}

/// `TextDecoder`.
#[derive(Debug)]
pub struct JsTextDecoder {}

impl JsTextDecoder {
    /// `new TextDecoder()`.
    pub fn new() -> Self {
        JsTextDecoder {  }
    }

    /// The text of bytes, repaired where they are no UTF-8. `input` holds the
    /// bytes of the array, if they can be read.
    pub fn decode(&self, input: Option<&[u8]>) -> (r: Result<String, InvalidTypedArray>)
        ensures
            match input {
                Some(bytes) => r matches Ok(text) && text@ == lossy_text(bytes@),
                None => r is Err,
            },
    {
        match input {
            Some(bytes) => Ok(decode_lossy(bytes)),
            None => Err(InvalidTypedArray),
        }
    }
}

/// Decoding undoes encoding, for every string.
pub proof fn law_decoder_undoes_encoder(s: Seq<char>)
    ensures
        lossy_text(encode_utf8(s)) == s,
{
    encode_utf8_valid_utf8(s);
    encode_utf8_decode_utf8(s);
}

} // verus!
