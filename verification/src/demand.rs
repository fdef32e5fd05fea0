//! Demand payloads for the trusted-oracle arbiter, and the helpers that read
//! an attestation's hex payload: an escrow attestation's data is an
//! address-plus-bytes pair whose inner bytes are again an address-plus-bytes
//! pair (the arbiter's demand), and a fulfillment attestation's data is a
//! string obligation.

use vstd::prelude::*;
use vstd::utf8::{encode_utf8, valid_utf8};

use crate::CodecError;
use crate::abi::{
    addr_word, bytes_enc, parse_addr_word, parse_bytes_at, parse_u64_word, push_addr_word,
    push_bytes_enc, push_word_u64, read_addr_word, read_bytes_at, read_word_u64, word_of_u64,
};
use crate::hexstr::{
    all_hex, bytes_of_hex, canonical_hex, hex_body, hex_decode, hex_encode_prefixed, hex_str_of,
    is_fixed_hex, lemma_bytes_of_hex_len, parse_fixed_hex,
};
use crate::oracle::PyOracleAttestation;
use crate::string_obligation::{decode_item_bytes, parse_string_obligation, string_from_utf8};

verus! {

/// What a trusted-oracle arbiter demands: the oracle whose arbitration
/// decides, and opaque data for that oracle.
#[derive(Clone, Debug)]
pub struct PyTrustedOracleArbiterDemandData {
    pub oracle: String,
    pub data: Vec<u8>,
}

/// The wire form of an address-plus-bytes pair: offset word, address word,
/// bytes offset word, then the length-prefixed padded bytes. Both the
/// arbiter-demand wrapper and the trusted-oracle demand itself have this
/// shape.
pub open spec fn enc_oracle_bytes(oracle: Seq<u8>, data: Seq<u8>) -> Seq<u8>
    recommends
        oracle.len() == 20,
        data.len() <= u64::MAX,
{
    word_of_u64(32) + addr_word(oracle) + word_of_u64(64) + bytes_enc(data)
}

/// The fields of a canonical address-plus-bytes encoding; `None` on anything
/// else.
pub open spec fn parse_oracle_bytes(b: Seq<u8>) -> Option<(Seq<u8>, Seq<u8>)> {
    if b.len() >= 96
        && parse_u64_word(b.subrange(0, 32)) == Some(32u64)
        && parse_addr_word(b.subrange(32, 64)) is Some
        && parse_u64_word(b.subrange(64, 96)) == Some(64u64)
        && parse_bytes_at(b, 96) is Some {
        Some((parse_addr_word(b.subrange(32, 64))->0, parse_bytes_at(b, 96)->0))
    } else {
        None
    }
}

/// Decoding inverts encoding for every well-formed pair.
pub proof fn lemma_oracle_bytes_round_trip(oracle: Seq<u8>, data: Seq<u8>)
    requires
        oracle.len() == 20,
        data.len() <= u64::MAX,
    ensures
        parse_oracle_bytes(enc_oracle_bytes(oracle, data)) == Some((oracle, data)),
{
    let b = enc_oracle_bytes(oracle, data);
    let head = word_of_u64(32) + addr_word(oracle) + word_of_u64(64);
    assert(b.subrange(0, 32) =~= word_of_u64(32));
    assert(b.subrange(32, 64) =~= addr_word(oracle));
    assert(b.subrange(64, 96) =~= word_of_u64(64));
    crate::abi::lemma_parse_word_of_u64(32);
    crate::abi::lemma_parse_word_of_u64(64);
    crate::abi::lemma_parse_addr_word(oracle);
    assert(head.len() == 96);
    assert(b =~= head + bytes_enc(data));
    crate::abi::lemma_parse_bytes_enc(head, data);
}

/// The decoder accepts nothing but canonical encodings.
pub proof fn lemma_oracle_bytes_complete(b: Seq<u8>)
    requires
        parse_oracle_bytes(b) is Some,
    ensures
        ({
            let f = parse_oracle_bytes(b)->0;
            b == enc_oracle_bytes(f.0, f.1)
        }),
{
    let f = parse_oracle_bytes(b)->0;
    crate::abi::lemma_word_u64_complete(b.subrange(0, 32), 32);
    crate::abi::lemma_addr_word_complete(b.subrange(32, 64), f.0);
    crate::abi::lemma_word_u64_complete(b.subrange(64, 96), 64);
    crate::abi::lemma_bytes_at_complete(b, 96, f.1);
    assert(b.take(96) =~= b.subrange(0, 32) + b.subrange(32, 64) + b.subrange(64, 96));
    assert(b.take(96) + bytes_enc(f.1) =~= enc_oracle_bytes(f.0, f.1));
}

/// Decode after encode is the identity on whole demands: with a canonical
/// oracle address string, both fields come back unchanged.
pub proof fn lemma_demand_codec_round_trip(oracle_s: Seq<char>, data: Seq<u8>)
    requires
        canonical_hex(oracle_s, 20),
        data.len() <= u64::MAX,
    ensures
        ({
            let ob = bytes_of_hex(hex_body(oracle_s));
            parse_oracle_bytes(enc_oracle_bytes(ob, data)) == Some((ob, data))
                && hex_str_of(ob) == oracle_s
        }),
{
    lemma_bytes_of_hex_len(hex_body(oracle_s));
    lemma_oracle_bytes_round_trip(bytes_of_hex(hex_body(oracle_s)), data);
}

/// Reads a canonical address-plus-bytes pair.
pub(crate) fn decode_oracle_bytes(b: &Vec<u8>) -> (r: Option<(Vec<u8>, Vec<u8>)>)
    ensures
        r matches Some(p) ==> parse_oracle_bytes(b@) == Some((p.0@, p.1@)),
        r is None ==> parse_oracle_bytes(b@) is None,
{
    if b.len() < 128 {
        return None;
    }
    match read_word_u64(b, 0) {
        Some(x) => {
            if x != 32 {
                return None;
            }
        },
        None => {
            return None;
        },
    }
    let oracle = match read_addr_word(b, 32) {
        Some(a) => a,
        None => {
            return None;
        },
    };
    match read_word_u64(b, 64) {
        Some(x) => {
            if x != 64 {
                return None;
            }
        },
        None => {
            return None;
        },
    }
    match read_bytes_at(b, 96) {
        Some(d) => Some((oracle, d)),
        None => None,
    }
}

impl PyTrustedOracleArbiterDemandData {
    pub fn new(oracle: String, data: Vec<u8>) -> (r: Self)
        ensures
            r.oracle@ == oracle@,
            r.data@ == data@,
    {
        PyTrustedOracleArbiterDemandData { oracle, data }
    }

    /// Encodes a demand; fails fast if the oracle address string is not 20
    /// bytes of hex.
    pub fn encode(demand_data: &PyTrustedOracleArbiterDemandData) -> (r: Result<Vec<u8>,
        CodecError>)
        ensures
            r is Ok <==> is_fixed_hex(demand_data.oracle@, 20),
            r matches Ok(bytes) ==> bytes@ == enc_oracle_bytes(
                bytes_of_hex(hex_body(demand_data.oracle@)), demand_data.data@),
            r matches Err(e) ==> e == CodecError::MalformedInput,
    {
        let oracle = match parse_fixed_hex(demand_data.oracle.as_str(), 20) {
            Some(a) => a,
            None => {
                return Err(CodecError::MalformedInput);
            },
        };
        let mut out: Vec<u8> = Vec::new();
        push_word_u64(&mut out, 32);
        push_addr_word(&mut out, &oracle);
        push_word_u64(&mut out, 64);
        push_bytes_enc(&mut out, &demand_data.data);
        proof {
            assert(out@ =~= enc_oracle_bytes(oracle@, demand_data.data@));
        }
        Ok(out)
    }

    /// Decodes a canonical demand encoding; the oracle comes back in the
    /// canonical lower-case `0x` form.
    pub fn decode(demand_bytes: Vec<u8>) -> (r: Result<PyTrustedOracleArbiterDemandData,
        CodecError>)
        ensures
            r is Ok <==> parse_oracle_bytes(demand_bytes@) is Some,
            r matches Ok(d) ==> (parse_oracle_bytes(demand_bytes@) matches Some(f)
                && d.oracle@ == hex_str_of(f.0) && d.data@ == f.1),
            r matches Err(e) ==> e == CodecError::Decode,
    {
        match decode_oracle_bytes(&demand_bytes) {
            Some((oracle, data)) => Ok(PyTrustedOracleArbiterDemandData {
                oracle: hex_encode_prefixed(&oracle),
                data,
            }),
            None => Err(CodecError::Decode),
        }
    }

    pub fn encode_self(&self) -> (r: Result<Vec<u8>, CodecError>)
        ensures
            r is Ok <==> is_fixed_hex(self.oracle@, 20),
            r matches Ok(bytes) ==> bytes@ == enc_oracle_bytes(
                bytes_of_hex(hex_body(self.oracle@)), self.data@),
            r matches Err(e) ==> e == CodecError::MalformedInput,
    {
        PyTrustedOracleArbiterDemandData::encode(self)
    }
}

/// The item stated by a fulfillment attestation: hex-decodes the
/// attestation's data and reads the string obligation inside.
pub fn extract_obligation_data(attestation: &PyOracleAttestation) -> (r: Result<String,
    CodecError>)
    ensures
        r is Ok <==> ({
            let hb = hex_body(attestation.data@);
            hb.len() % 2 == 0 && all_hex(hb)
                && (parse_string_obligation(bytes_of_hex(hb)) matches Some(bs)
                && valid_utf8(bs))
        }),
        r matches Ok(item) ==> (parse_string_obligation(bytes_of_hex(hex_body(
            attestation.data@))) matches Some(bs) && bs == encode_utf8(item@)),
        r matches Err(e) ==> e == CodecError::Decode,
{
    let bytes = match hex_decode(attestation.data.as_str()) {
        Some(b) => b,
        None => {
            return Err(CodecError::Decode);
        },
    };
    match decode_item_bytes(&bytes) {
        Some(bs) => {
            match string_from_utf8(bs) {
                Some(item) => {
                    proof {
                        vstd::utf8::encode_utf8_valid_utf8(item@);
                    }
                    Ok(item)
                },
                None => Err(CodecError::Decode),
            }
        },
        None => Err(CodecError::Decode),
    }
}

/// The demand inside an escrow attestation: hex-decodes the attestation's
/// data, reads the arbiter wrapper (whose address names the arbiter and is
/// not returned), and decodes the trusted-oracle demand from the wrapped
/// bytes.
pub fn extract_demand_data(escrow_attestation: &PyOracleAttestation) -> (r: Result<
    PyTrustedOracleArbiterDemandData, CodecError>)
    ensures
        r is Ok <==> ({
            let hb = hex_body(escrow_attestation.data@);
            hb.len() % 2 == 0 && all_hex(hb)
                && (parse_oracle_bytes(bytes_of_hex(hb)) matches Some(w)
                && parse_oracle_bytes(w.1) is Some)
        }),
        r matches Ok(d) ==> (parse_oracle_bytes(bytes_of_hex(hex_body(
            escrow_attestation.data@))) matches Some(w)
            && (parse_oracle_bytes(w.1) matches Some(inner)
            && d.oracle@ == hex_str_of(inner.0) && d.data@ == inner.1)),
        r matches Err(e) ==> e == CodecError::Decode,
{
    let bytes = match hex_decode(escrow_attestation.data.as_str()) {
        Some(b) => b,
        None => {
            return Err(CodecError::Decode);
        },
    };
    let wrapper = match decode_oracle_bytes(&bytes) {
        Some(w) => w,
        None => {
            return Err(CodecError::Decode);
        },
    };
    PyTrustedOracleArbiterDemandData::decode(wrapper.1)
}

} // verus!
