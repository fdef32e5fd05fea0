//! Obligation payloads for single-token (non-fungible) escrow and payment.
//! The token id ranges over the full 256-bit space, so it travels as a
//! decimal string and rides in the wire words as four limbs.

use vstd::prelude::*;

use crate::CodecError;
use crate::abi::{
    addr_word, bytes_enc, parse_addr_word, parse_bytes_at, parse_u64_word, parse_u256_word,
    push_addr_word, push_bytes_enc, push_u256_word, push_word_u64, read_addr_word,
    read_bytes_at, read_u256_word, read_word_u64, word_of_u64, word_of_u256,
};
use crate::hexstr::{
    bytes_of_hex, canonical_hex, hex_body, hex_encode_prefixed, hex_str_of, is_fixed_hex,
    lemma_bytes_of_hex_len, parse_fixed_hex,
};
use crate::uint256::{
    U256, all_dec, dec_val, from_decimal, is_canonical_dec, lemma_u256_of_val, lemma_u256_val_of,
    to_decimal, u256_of, u256_val,
};

verus! {

/// An escrow obligation: token `token_id` of `token` held until `arbiter`
/// is satisfied with `demand`.
#[derive(Clone, Debug)]
pub struct PyERC721EscrowObligationData {
    pub token: String,
    pub token_id: String,
    pub arbiter: String,
    pub demand: Vec<u8>,
}

/// A payment obligation: token `token_id` of `token` owed to `payee`.
#[derive(Clone, Debug)]
pub struct PyERC721PaymentObligationData {
    pub token: String,
    pub token_id: String,
    pub payee: String,
}

/// A well-formed token id string: a canonical decimal number below two to
/// the 256th (what the decoders emit and the encoders accept exactly).
pub open spec fn dec_string_in_range(s: Seq<char>) -> bool {
    s.len() > 0 && all_dec(s) && dec_val(s)
        < 0x10000000000000000000000000000000000000000000000000000000000000000
}

/// The wire form of an escrow obligation: offset word, token word, token-id
/// word, arbiter word, demand offset word, then the demand bytes.
pub open spec fn enc_erc721_escrow(token: Seq<u8>, token_id: U256, arbiter: Seq<u8>,
    demand: Seq<u8>) -> Seq<u8>
    recommends
        token.len() == 20,
        arbiter.len() == 20,
        demand.len() <= u64::MAX,
{
    word_of_u64(32) + addr_word(token) + word_of_u256(token_id) + addr_word(arbiter)
        + word_of_u64(128) + bytes_enc(demand)
}

/// The fields of a canonical escrow encoding; `None` on anything else.
pub open spec fn parse_erc721_escrow(b: Seq<u8>) -> Option<(Seq<u8>, U256, Seq<u8>, Seq<u8>)> {
    if b.len() >= 160
        && parse_u64_word(b.subrange(0, 32)) == Some(32u64)
        && parse_addr_word(b.subrange(32, 64)) is Some
        && parse_addr_word(b.subrange(96, 128)) is Some
        && parse_u64_word(b.subrange(128, 160)) == Some(128u64)
        && parse_bytes_at(b, 160) is Some {
        Some((parse_addr_word(b.subrange(32, 64))->0, parse_u256_word(b.subrange(64, 96)),
            parse_addr_word(b.subrange(96, 128))->0, parse_bytes_at(b, 160)->0))
    } else {
        None
    }
}

/// The wire form of a payment obligation: three static words.
pub open spec fn enc_erc721_payment(token: Seq<u8>, token_id: U256, payee: Seq<u8>) -> Seq<u8>
    recommends
        token.len() == 20,
        payee.len() == 20,
{
    addr_word(token) + word_of_u256(token_id) + addr_word(payee)
}

/// The fields of a canonical payment encoding; `None` on anything else.
pub open spec fn parse_erc721_payment(b: Seq<u8>) -> Option<(Seq<u8>, U256, Seq<u8>)> {
    if b.len() == 96
        && parse_addr_word(b.subrange(0, 32)) is Some
        && parse_addr_word(b.subrange(64, 96)) is Some {
        Some((parse_addr_word(b.subrange(0, 32))->0, parse_u256_word(b.subrange(32, 64)),
            parse_addr_word(b.subrange(64, 96))->0))
    } else {
        None
    }
}

/// Decoding inverts encoding for every well-formed escrow obligation.
pub proof fn lemma_erc721_escrow_round_trip(token: Seq<u8>, token_id: U256, arbiter: Seq<u8>,
    demand: Seq<u8>)
    requires
        token.len() == 20,
        arbiter.len() == 20,
        demand.len() <= u64::MAX,
    ensures
        parse_erc721_escrow(enc_erc721_escrow(token, token_id, arbiter, demand))
            == Some((token, token_id, arbiter, demand)),
{
    let b = enc_erc721_escrow(token, token_id, arbiter, demand);
    let head = word_of_u64(32) + addr_word(token) + word_of_u256(token_id) + addr_word(arbiter)
        + word_of_u64(128);
    assert(b.subrange(0, 32) =~= word_of_u64(32));
    assert(b.subrange(32, 64) =~= addr_word(token));
    assert(b.subrange(64, 96) =~= word_of_u256(token_id));
    assert(b.subrange(96, 128) =~= addr_word(arbiter));
    assert(b.subrange(128, 160) =~= word_of_u64(128));
    crate::abi::lemma_parse_word_of_u64(32);
    crate::abi::lemma_parse_word_of_u64(128);
    crate::abi::lemma_parse_addr_word(token);
    crate::abi::lemma_parse_addr_word(arbiter);
    crate::abi::lemma_parse_word_of_u256(token_id);
    assert(head.len() == 160);
    assert(b =~= head + bytes_enc(demand));
    crate::abi::lemma_parse_bytes_enc(head, demand);
}

/// Decoding inverts encoding for every well-formed payment obligation.
pub proof fn lemma_erc721_payment_round_trip(token: Seq<u8>, token_id: U256, payee: Seq<u8>)
    requires
        token.len() == 20,
        payee.len() == 20,
    ensures
        parse_erc721_payment(enc_erc721_payment(token, token_id, payee))
            == Some((token, token_id, payee)),
{
    let b = enc_erc721_payment(token, token_id, payee);
    assert(b.subrange(0, 32) =~= addr_word(token));
    assert(b.subrange(32, 64) =~= word_of_u256(token_id));
    assert(b.subrange(64, 96) =~= addr_word(payee));
    crate::abi::lemma_parse_addr_word(token);
    crate::abi::lemma_parse_addr_word(payee);
    crate::abi::lemma_parse_word_of_u256(token_id);
}

/// The escrow decoder accepts nothing but canonical encodings.
pub proof fn lemma_erc721_escrow_complete(b: Seq<u8>)
    requires
        parse_erc721_escrow(b) is Some,
    ensures
        ({
            let f = parse_erc721_escrow(b)->0;
            b == enc_erc721_escrow(f.0, f.1, f.2, f.3)
        }),
{
    let f = parse_erc721_escrow(b)->0;
    crate::abi::lemma_word_u64_complete(b.subrange(0, 32), 32);
    crate::abi::lemma_addr_word_complete(b.subrange(32, 64), f.0);
    crate::abi::lemma_word_u256_complete(b.subrange(64, 96));
    crate::abi::lemma_addr_word_complete(b.subrange(96, 128), f.2);
    crate::abi::lemma_word_u64_complete(b.subrange(128, 160), 128);
    crate::abi::lemma_bytes_at_complete(b, 160, f.3);
    assert(b.take(160) =~= b.subrange(0, 32) + b.subrange(32, 64) + b.subrange(64, 96)
        + b.subrange(96, 128) + b.subrange(128, 160));
    assert(b.take(160) + bytes_enc(f.3) =~= enc_erc721_escrow(f.0, f.1, f.2, f.3));
}

/// The payment decoder accepts nothing but canonical encodings.
pub proof fn lemma_erc721_payment_complete(b: Seq<u8>)
    requires
        parse_erc721_payment(b) is Some,
    ensures
        ({
            let f = parse_erc721_payment(b)->0;
            b == enc_erc721_payment(f.0, f.1, f.2)
        }),
{
    let f = parse_erc721_payment(b)->0;
    crate::abi::lemma_addr_word_complete(b.subrange(0, 32), f.0);
    crate::abi::lemma_word_u256_complete(b.subrange(32, 64));
    crate::abi::lemma_addr_word_complete(b.subrange(64, 96), f.2);
    assert(b =~= b.subrange(0, 32) + b.subrange(32, 64) + b.subrange(64, 96));
    assert(b.subrange(0, 32) + b.subrange(32, 64) + b.subrange(64, 96)
        =~= enc_erc721_payment(f.0, f.1, f.2));
}

/// Decode after encode is the identity on whole escrow obligations: with
/// canonical address strings and a canonical in-range token id, every field
/// comes back unchanged (the token-id string by canonical-decimal
/// uniqueness).
pub proof fn lemma_erc721_escrow_codec_round_trip(token_s: Seq<char>, id_s: Seq<char>,
    arbiter_s: Seq<char>, demand: Seq<u8>)
    requires
        canonical_hex(token_s, 20),
        canonical_hex(arbiter_s, 20),
        is_canonical_dec(id_s),
        dec_string_in_range(id_s),
        demand.len() <= u64::MAX,
    ensures
        ({
            let tb = bytes_of_hex(hex_body(token_s));
            let ab = bytes_of_hex(hex_body(arbiter_s));
            let v = u256_of(dec_val(id_s));
            parse_erc721_escrow(enc_erc721_escrow(tb, v, ab, demand))
                == Some((tb, v, ab, demand))
                && hex_str_of(tb) == token_s && hex_str_of(ab) == arbiter_s
                && u256_val(v) == dec_val(id_s)
        }),
{
    lemma_bytes_of_hex_len(hex_body(token_s));
    lemma_bytes_of_hex_len(hex_body(arbiter_s));
    lemma_u256_val_of(dec_val(id_s));
    lemma_erc721_escrow_round_trip(bytes_of_hex(hex_body(token_s)), u256_of(dec_val(id_s)),
        bytes_of_hex(hex_body(arbiter_s)), demand);
}

impl PyERC721EscrowObligationData {
    pub fn new(token: String, token_id: String, arbiter: String, demand: Vec<u8>) -> (r: Self)
        ensures
            r.token@ == token@,
            r.token_id@ == token_id@,
            r.arbiter@ == arbiter@,
            r.demand@ == demand@,
    {
        PyERC721EscrowObligationData { token, token_id, arbiter, demand }
    }

    /// Encodes an obligation; fails fast on a malformed address string or a
    /// token id that is not a decimal number below two to the 256th.
    pub fn encode(obligation: &PyERC721EscrowObligationData) -> (r: Result<Vec<u8>, CodecError>)
        ensures
            r is Ok <==> is_fixed_hex(obligation.token@, 20)
                && dec_string_in_range(obligation.token_id@)
                && is_fixed_hex(obligation.arbiter@, 20),
            r matches Ok(bytes) ==> bytes@ == enc_erc721_escrow(
                bytes_of_hex(hex_body(obligation.token@)),
                u256_of(dec_val(obligation.token_id@)),
                bytes_of_hex(hex_body(obligation.arbiter@)), obligation.demand@),
            r matches Err(e) ==> e == CodecError::MalformedInput,
    {
        let token = match parse_fixed_hex(obligation.token.as_str(), 20) {
            Some(t) => t,
            None => {
                return Err(CodecError::MalformedInput);
            },
        };
        let token_id = match from_decimal(obligation.token_id.as_str()) {
            Some(v) => v,
            None => {
                return Err(CodecError::MalformedInput);
            },
        };
        let arbiter = match parse_fixed_hex(obligation.arbiter.as_str(), 20) {
            Some(a) => a,
            None => {
                return Err(CodecError::MalformedInput);
            },
        };
        let mut out: Vec<u8> = Vec::new();
        push_word_u64(&mut out, 32);
        push_addr_word(&mut out, &token);
        push_u256_word(&mut out, &token_id);
        push_addr_word(&mut out, &arbiter);
        push_word_u64(&mut out, 128);
        push_bytes_enc(&mut out, &obligation.demand);
        proof {
            lemma_u256_of_val(token_id);
            assert(out@ =~= enc_erc721_escrow(token@, token_id, arbiter@, obligation.demand@));
        }
        Ok(out)
    }

    /// Decodes a canonical escrow encoding; the addresses come back in the
    /// canonical lower-case `0x` form and the token id as a canonical
    /// decimal string.
    pub fn decode(obligation_data: Vec<u8>) -> (r: Result<PyERC721EscrowObligationData,
        CodecError>)
        ensures
            r is Ok <==> parse_erc721_escrow(obligation_data@) is Some,
            r matches Ok(d) ==> (parse_erc721_escrow(obligation_data@) matches Some(f)
                && d.token@ == hex_str_of(f.0) && is_canonical_dec(d.token_id@)
                && dec_val(d.token_id@) == u256_val(f.1)
                && d.arbiter@ == hex_str_of(f.2) && d.demand@ == f.3),
            r matches Err(e) ==> e == CodecError::Decode,
    {
        let b = &obligation_data;
        if b.len() < 192 {
            return Err(CodecError::Decode);
        }
        match read_word_u64(b, 0) {
            Some(x) => {
                if x != 32 {
                    return Err(CodecError::Decode);
                }
            },
            None => {
                return Err(CodecError::Decode);
            },
        }
        let token = match read_addr_word(b, 32) {
            Some(t) => t,
            None => {
                return Err(CodecError::Decode);
            },
        };
        let token_id = read_u256_word(b, 64);
        let arbiter = match read_addr_word(b, 96) {
            Some(a) => a,
            None => {
                return Err(CodecError::Decode);
            },
        };
        match read_word_u64(b, 128) {
            Some(x) => {
                if x != 128 {
                    return Err(CodecError::Decode);
                }
            },
            None => {
                return Err(CodecError::Decode);
            },
        }
        let demand = match read_bytes_at(b, 160) {
            Some(d) => d,
            None => {
                return Err(CodecError::Decode);
            },
        };
        Ok(PyERC721EscrowObligationData {
            token: hex_encode_prefixed(&token),
            token_id: to_decimal(token_id),
            arbiter: hex_encode_prefixed(&arbiter),
            demand,
        })
    }

    pub fn encode_self(&self) -> (r: Result<Vec<u8>, CodecError>)
        ensures
            r is Ok <==> is_fixed_hex(self.token@, 20) && dec_string_in_range(self.token_id@)
                && is_fixed_hex(self.arbiter@, 20),
            r matches Ok(bytes) ==> bytes@ == enc_erc721_escrow(
                bytes_of_hex(hex_body(self.token@)), u256_of(dec_val(self.token_id@)),
                bytes_of_hex(hex_body(self.arbiter@)), self.demand@),
            r matches Err(e) ==> e == CodecError::MalformedInput,
    {
        PyERC721EscrowObligationData::encode(self)
    }
}

impl PyERC721PaymentObligationData {
    pub fn new(token: String, token_id: String, payee: String) -> (r: Self)
        ensures
            r.token@ == token@,
            r.token_id@ == token_id@,
            r.payee@ == payee@,
    {
        PyERC721PaymentObligationData { token, token_id, payee }
    }

    /// Encodes an obligation; fails fast on a malformed address string or a
    /// token id that is not a decimal number below two to the 256th.
    pub fn encode(obligation: &PyERC721PaymentObligationData) -> (r: Result<Vec<u8>,
        CodecError>)
        ensures
            r is Ok <==> is_fixed_hex(obligation.token@, 20)
                && dec_string_in_range(obligation.token_id@)
                && is_fixed_hex(obligation.payee@, 20),
            r matches Ok(bytes) ==> bytes@ == enc_erc721_payment(
                bytes_of_hex(hex_body(obligation.token@)),
                u256_of(dec_val(obligation.token_id@)),
                bytes_of_hex(hex_body(obligation.payee@))),
            r matches Err(e) ==> e == CodecError::MalformedInput,
    {
        let token = match parse_fixed_hex(obligation.token.as_str(), 20) {
            Some(t) => t,
            None => {
                return Err(CodecError::MalformedInput);
            },
        };
        let token_id = match from_decimal(obligation.token_id.as_str()) {
            Some(v) => v,
            None => {
                return Err(CodecError::MalformedInput);
            },
        };
        let payee = match parse_fixed_hex(obligation.payee.as_str(), 20) {
            Some(p) => p,
            None => {
                return Err(CodecError::MalformedInput);
            },
        };
        let mut out: Vec<u8> = Vec::new();
        push_addr_word(&mut out, &token);
        push_u256_word(&mut out, &token_id);
        push_addr_word(&mut out, &payee);
        proof {
            lemma_u256_of_val(token_id);
            assert(out@ =~= enc_erc721_payment(token@, token_id, payee@));
        }
        Ok(out)
    }

    /// Decodes a canonical payment encoding.
    pub fn decode(obligation_data: Vec<u8>) -> (r: Result<PyERC721PaymentObligationData,
        CodecError>)
        ensures
            r is Ok <==> parse_erc721_payment(obligation_data@) is Some,
            r matches Ok(d) ==> (parse_erc721_payment(obligation_data@) matches Some(f)
                && d.token@ == hex_str_of(f.0) && is_canonical_dec(d.token_id@)
                && dec_val(d.token_id@) == u256_val(f.1) && d.payee@ == hex_str_of(f.2)),
            r matches Err(e) ==> e == CodecError::Decode,
    {
        let b = &obligation_data;
        if b.len() != 96 {
            return Err(CodecError::Decode);
        }
        let token = match read_addr_word(b, 0) {
            Some(t) => t,
            None => {
                return Err(CodecError::Decode);
            },
        };
        let token_id = read_u256_word(b, 32);
        let payee = match read_addr_word(b, 64) {
            Some(p) => p,
            None => {
                return Err(CodecError::Decode);
            },
        };
        Ok(PyERC721PaymentObligationData {
            token: hex_encode_prefixed(&token),
            token_id: to_decimal(token_id),
            payee: hex_encode_prefixed(&payee),
        })
    }

    pub fn encode_self(&self) -> (r: Result<Vec<u8>, CodecError>)
        ensures
            r is Ok <==> is_fixed_hex(self.token@, 20) && dec_string_in_range(self.token_id@)
                && is_fixed_hex(self.payee@, 20),
            r matches Ok(bytes) ==> bytes@ == enc_erc721_payment(
                bytes_of_hex(hex_body(self.token@)), u256_of(dec_val(self.token_id@)),
                bytes_of_hex(hex_body(self.payee@))),
            r matches Err(e) ==> e == CodecError::MalformedInput,
    {
        PyERC721PaymentObligationData::encode(self)
    }
}

} // verus!
