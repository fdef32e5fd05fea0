//! Obligation payloads that carry one string, and their JSON variant: a
//! string obligation's wire form is the text's UTF-8 bytes behind the
//! canonical offset and length words. The JSON functions accept any JSON
//! document, canonicalize it, and carry the canonical text as the obligation
//! string.

use vstd::prelude::*;
use vstd::string::StrSliceExecFns;
use vstd::utf8::{decode_utf8, encode_utf8, valid_utf8};

use crate::CodecError;
use crate::abi::{
    bytes_enc, parse_bytes_at, parse_u64_word, push_bytes_enc, push_word_u64, read_bytes_at,
    read_word_u64, word_of_u64,
};

verus! {

/// An obligation that states one string.
#[derive(Clone, Debug)]
pub struct PyStringObligationData {
    pub item: String,
}

/// The wire form of a string obligation: offset word, length-prefixed padded
/// UTF-8 text.
pub open spec fn enc_string_obligation(item_bytes: Seq<u8>) -> Seq<u8>
    recommends
        item_bytes.len() <= u64::MAX,
{
    word_of_u64(32) + word_of_u64(32) + bytes_enc(item_bytes)
}

/// The UTF-8 payload of a canonical string-obligation encoding; `None` on
/// anything else.
pub open spec fn parse_string_obligation(b: Seq<u8>) -> Option<Seq<u8>> {
    if b.len() >= 64
        && parse_u64_word(b.subrange(0, 32)) == Some(32u64)
        && parse_u64_word(b.subrange(32, 64)) == Some(32u64)
        && parse_bytes_at(b, 64) is Some {
        Some(parse_bytes_at(b, 64)->0)
    } else {
        None
    }
}

/// Decoding inverts encoding for every payload.
pub proof fn lemma_string_obligation_round_trip(item_bytes: Seq<u8>)
    requires
        item_bytes.len() <= u64::MAX,
    ensures
        parse_string_obligation(enc_string_obligation(item_bytes)) == Some(item_bytes),
{
    let b = enc_string_obligation(item_bytes);
    let head = word_of_u64(32) + word_of_u64(32);
    assert(b.subrange(0, 32) =~= word_of_u64(32));
    assert(b.subrange(32, 64) =~= word_of_u64(32));
    crate::abi::lemma_parse_word_of_u64(32);
    assert(head.len() == 64);
    assert(b =~= head + bytes_enc(item_bytes));
    crate::abi::lemma_parse_bytes_enc(head, item_bytes);
}

/// The decoder accepts nothing but canonical encodings.
pub proof fn lemma_string_obligation_complete(b: Seq<u8>)
    requires
        parse_string_obligation(b) is Some,
    ensures
        b == enc_string_obligation(parse_string_obligation(b)->0),
{
    let d = parse_string_obligation(b)->0;
    crate::abi::lemma_word_u64_complete(b.subrange(0, 32), 32);
    crate::abi::lemma_word_u64_complete(b.subrange(32, 64), 32);
    crate::abi::lemma_bytes_at_complete(b, 64, d);
    assert(b.take(64) =~= b.subrange(0, 32) + b.subrange(32, 64));
    assert(b.take(64) + bytes_enc(d) =~= enc_string_obligation(d));
}

/// Decode after encode is the identity on whole string obligations: the
/// text comes back character for character.
pub proof fn lemma_string_codec_round_trip(item: Seq<char>)
    requires
        encode_utf8(item).len() <= u64::MAX,
    ensures
        parse_string_obligation(enc_string_obligation(encode_utf8(item)))
            == Some(encode_utf8(item)),
        decode_utf8(encode_utf8(item)) == item,
        valid_utf8(encode_utf8(item)),
{
    lemma_string_obligation_round_trip(encode_utf8(item));
    vstd::utf8::encode_utf8_decode_utf8(item);
    vstd::utf8::encode_utf8_valid_utf8(item);
}

/// Relies on `String::from_utf8`: returns the string whose UTF-8 bytes are
/// the input, and fails exactly on input that is not valid UTF-8.
#[verifier::external_body]
pub(crate) fn string_from_utf8(v: Vec<u8>) -> (r: Option<String>)
    ensures
        r matches Some(s) ==> v@ == encode_utf8(s@),
        r is None ==> !valid_utf8(v@),
{
    String::from_utf8(v).ok()
}

/// The canonical rendering of the JSON document `s`, or `None` where `s` is
/// not JSON. The result depends on the text alone.
pub uninterp spec fn json_canon(s: Seq<char>) -> Option<Seq<char>>;

/// Relies on `serde_json::from_str` and `serde_json::to_string`: parsing a
/// JSON document and rendering the parsed value back to text is a function
/// of the text alone, and parsing fails exactly on text that is not JSON.
#[verifier::external_body]
fn canonicalize_json(s: &str) -> (r: Option<String>)
    ensures
        r matches Some(t) ==> json_canon(s@) == Some(t@),
        r is None <==> json_canon(s@) is None,
{
    match serde_json::from_str::<serde_json::Value>(s) {
        Ok(v) => serde_json::to_string(&v).ok(),
        Err(_) => None,
    }
}

impl PyStringObligationData {
    pub fn new(item: String) -> (r: Self)
        ensures
            r.item@ == item@,
    {
        PyStringObligationData { item }
    }

    /// Encodes an obligation string; every string encodes.
    pub fn encode(obligation: &PyStringObligationData) -> (r: Result<Vec<u8>, CodecError>)
        ensures
            r matches Ok(bytes) ==> bytes@ == enc_string_obligation(
                encode_utf8(obligation.item@)),
            r is Ok,
    {
        let item_bytes = obligation.item.as_str().as_bytes_vec();
        let mut out: Vec<u8> = Vec::new();
        push_word_u64(&mut out, 32);
        push_word_u64(&mut out, 32);
        push_bytes_enc(&mut out, &item_bytes);
        proof {
            assert(out@ =~= enc_string_obligation(encode_utf8(obligation.item@)));
        }
        Ok(out)
    }

    /// Decodes a canonical string-obligation encoding whose payload is valid
    /// UTF-8.
    pub fn decode(obligation_data: Vec<u8>) -> (r: Result<PyStringObligationData, CodecError>)
        ensures
            r is Ok <==> (parse_string_obligation(obligation_data@) matches Some(bs)
                && valid_utf8(bs)),
            r matches Ok(d) ==> (parse_string_obligation(obligation_data@) matches Some(bs)
                && bs == encode_utf8(d.item@)),
            r matches Err(e) ==> e == CodecError::Decode,
    {
        match decode_item_bytes(&obligation_data) {
            Some(bs) => {
                match string_from_utf8(bs) {
                    Some(item) => {
                        proof {
                            vstd::utf8::encode_utf8_valid_utf8(item@);
                        }
                        Ok(PyStringObligationData { item })
                    },
                    None => Err(CodecError::Decode),
                }
            },
            None => Err(CodecError::Decode),
        }
    }

    pub fn encode_self(&self) -> (r: Result<Vec<u8>, CodecError>)
        ensures
            r matches Ok(bytes) ==> bytes@ == enc_string_obligation(encode_utf8(self.item@)),
            r is Ok,
    {
        PyStringObligationData::encode(self)
    }

    /// Parses `json_data`, canonicalizes it, and encodes the canonical text
    /// as a string obligation; fails fast on text that is not JSON.
    pub fn encode_json(json_data: String) -> (r: Result<Vec<u8>, CodecError>)
        ensures
            r is Ok <==> json_canon(json_data@) is Some,
            r matches Ok(bytes) ==> (json_canon(json_data@) matches Some(c)
                && bytes@ == enc_string_obligation(encode_utf8(c))),
            r matches Err(e) ==> e == CodecError::MalformedInput,
    {
        match canonicalize_json(json_data.as_str()) {
            Some(canon) => {
                let r = PyStringObligationData::encode(&PyStringObligationData { item: canon });
                match r {
                    Ok(bytes) => Ok(bytes),
                    Err(_) => Err(CodecError::MalformedInput),
                }
            },
            None => Err(CodecError::MalformedInput),
        }
    }

    /// Decodes a string obligation and renders its text as canonical JSON;
    /// fails if the payload is not a JSON document.
    pub fn decode_json(obligation_data: Vec<u8>) -> (r: Result<String, CodecError>)
        ensures
            r is Ok <==> (parse_string_obligation(obligation_data@) matches Some(bs)
                && valid_utf8(bs) && json_canon(decode_utf8(bs)) is Some),
            r matches Ok(t) ==> (parse_string_obligation(obligation_data@) matches Some(bs)
                && json_canon(decode_utf8(bs)) == Some(t@)),
            r matches Err(e) ==> e == CodecError::Decode,
    {
        match decode_item_bytes(&obligation_data) {
            Some(bs) => {
                let ghost bsv = bs@;
                match string_from_utf8(bs) {
                    Some(item) => {
                        proof {
                            vstd::utf8::encode_utf8_decode_utf8(item@);
                            vstd::utf8::encode_utf8_valid_utf8(item@);
                            assert(decode_utf8(bsv) == item@);
                        }
                        match canonicalize_json(item.as_str()) {
                            Some(t) => Ok(t),
                            None => Err(CodecError::Decode),
                        }
                    },
                    None => Err(CodecError::Decode),
                }
            },
            None => Err(CodecError::Decode),
        }
    }
}

/// Reads the UTF-8 payload of a string obligation, or `None` where the bytes
/// are not a canonical encoding.
pub(crate) fn decode_item_bytes(b: &Vec<u8>) -> (r: Option<Vec<u8>>)
    ensures
        r matches Some(v) ==> parse_string_obligation(b@) == Some(v@),
        r is None ==> parse_string_obligation(b@) is None,
{
    if b.len() < 96 {
        return None;
    }
    match read_word_u64(b, 0) {
        Some(x) => {
            if x != 32 {
                return None;
            }
        },
        None => {
            return None;
        },
    }
    match read_word_u64(b, 32) {
        Some(x) => {
            if x != 32 {
                return None;
            }
        },
        None => {
            return None;
        },
    }
    read_bytes_at(b, 64)
}

} // verus!
