//! Obligation payloads for multi-token escrow and payment. Token id and
//! amount both range over the full 256-bit space, so they travel as decimal
//! strings and ride in the wire words as four limbs each.

use vstd::prelude::*;

use crate::CodecError;
use crate::abi::{
    addr_word, bytes_enc, parse_addr_word, parse_bytes_at, parse_u64_word, parse_u256_word,
    push_addr_word, push_bytes_enc, push_u256_word, push_word_u64, read_addr_word,
    read_bytes_at, read_u256_word, read_word_u64, word_of_u64, word_of_u256,
};
use crate::erc721::dec_string_in_range;
use crate::hexstr::{
    bytes_of_hex, canonical_hex, hex_body, hex_encode_prefixed, hex_str_of, is_fixed_hex,
    lemma_bytes_of_hex_len, parse_fixed_hex,
};
use crate::uint256::{
    U256, dec_val, from_decimal, is_canonical_dec, lemma_u256_of_val, lemma_u256_val_of,
    to_decimal, u256_of, u256_val,
};

verus! {

/// An escrow obligation: `amount` of token `token_id` of `token` held until
/// `arbiter` is satisfied with `demand`.
#[derive(Clone, Debug)]
pub struct PyERC1155EscrowObligationData {
    pub token: String,
    pub token_id: String,
    pub amount: String,
    pub arbiter: String,
    pub demand: Vec<u8>,
}

/// A payment obligation: `amount` of token `token_id` of `token` owed to
/// `payee`.
#[derive(Clone, Debug)]
pub struct PyERC1155PaymentObligationData {
    pub token: String,
    pub token_id: String,
    pub amount: String,
    pub payee: String,
}

/// The wire form of an escrow obligation: offset word, token word, token-id
/// word, amount word, arbiter word, demand offset word, then the demand
/// bytes.
pub open spec fn enc_erc1155_escrow(token: Seq<u8>, token_id: U256, amount: U256,
    arbiter: Seq<u8>, demand: Seq<u8>) -> Seq<u8>
    recommends
        token.len() == 20,
        arbiter.len() == 20,
        demand.len() <= u64::MAX,
{
    word_of_u64(32) + addr_word(token) + word_of_u256(token_id) + word_of_u256(amount)
        + addr_word(arbiter) + word_of_u64(160) + bytes_enc(demand)
}

/// The fields of a canonical escrow encoding; `None` on anything else.
pub open spec fn parse_erc1155_escrow(b: Seq<u8>) -> Option<(Seq<u8>, U256, U256, Seq<u8>,
    Seq<u8>)> {
    if b.len() >= 192
        && parse_u64_word(b.subrange(0, 32)) == Some(32u64)
        && parse_addr_word(b.subrange(32, 64)) is Some
        && parse_addr_word(b.subrange(128, 160)) is Some
        && parse_u64_word(b.subrange(160, 192)) == Some(160u64)
        && parse_bytes_at(b, 192) is Some {
        Some((parse_addr_word(b.subrange(32, 64))->0, parse_u256_word(b.subrange(64, 96)),
            parse_u256_word(b.subrange(96, 128)), parse_addr_word(b.subrange(128, 160))->0,
            parse_bytes_at(b, 192)->0))
    } else {
        None
    }
}

/// The wire form of a payment obligation: four static words.
pub open spec fn enc_erc1155_payment(token: Seq<u8>, token_id: U256, amount: U256,
    payee: Seq<u8>) -> Seq<u8>
    recommends
        token.len() == 20,
        payee.len() == 20,
{
    addr_word(token) + word_of_u256(token_id) + word_of_u256(amount) + addr_word(payee)
}

/// The fields of a canonical payment encoding; `None` on anything else.
pub open spec fn parse_erc1155_payment(b: Seq<u8>) -> Option<(Seq<u8>, U256, U256, Seq<u8>)> {
    if b.len() == 128
        && parse_addr_word(b.subrange(0, 32)) is Some
        && parse_addr_word(b.subrange(96, 128)) is Some {
        Some((parse_addr_word(b.subrange(0, 32))->0, parse_u256_word(b.subrange(32, 64)),
            parse_u256_word(b.subrange(64, 96)), parse_addr_word(b.subrange(96, 128))->0))
    } else {
        None
    }
}

/// Decoding inverts encoding for every well-formed escrow obligation.
pub proof fn lemma_erc1155_escrow_round_trip(token: Seq<u8>, token_id: U256, amount: U256,
    arbiter: Seq<u8>, demand: Seq<u8>)
    requires
        token.len() == 20,
        arbiter.len() == 20,
        demand.len() <= u64::MAX,
    ensures
        parse_erc1155_escrow(enc_erc1155_escrow(token, token_id, amount, arbiter, demand))
            == Some((token, token_id, amount, arbiter, demand)),
{
    let b = enc_erc1155_escrow(token, token_id, amount, arbiter, demand);
    let head = word_of_u64(32) + addr_word(token) + word_of_u256(token_id)
        + word_of_u256(amount) + addr_word(arbiter) + word_of_u64(160);
    assert(b.subrange(0, 32) =~= word_of_u64(32));
    assert(b.subrange(32, 64) =~= addr_word(token));
    assert(b.subrange(64, 96) =~= word_of_u256(token_id));
    assert(b.subrange(96, 128) =~= word_of_u256(amount));
    assert(b.subrange(128, 160) =~= addr_word(arbiter));
    assert(b.subrange(160, 192) =~= word_of_u64(160));
    crate::abi::lemma_parse_word_of_u64(32);
    crate::abi::lemma_parse_word_of_u64(160);
    crate::abi::lemma_parse_addr_word(token);
    crate::abi::lemma_parse_addr_word(arbiter);
    crate::abi::lemma_parse_word_of_u256(token_id);
    crate::abi::lemma_parse_word_of_u256(amount);
    assert(head.len() == 192);
    assert(b =~= head + bytes_enc(demand));
    crate::abi::lemma_parse_bytes_enc(head, demand);
}

/// Decoding inverts encoding for every well-formed payment obligation.
pub proof fn lemma_erc1155_payment_round_trip(token: Seq<u8>, token_id: U256, amount: U256,
    payee: Seq<u8>)
    requires
        token.len() == 20,
        payee.len() == 20,
    ensures
        parse_erc1155_payment(enc_erc1155_payment(token, token_id, amount, payee))
            == Some((token, token_id, amount, payee)),
{
    let b = enc_erc1155_payment(token, token_id, amount, payee);
    assert(b.subrange(0, 32) =~= addr_word(token));
    assert(b.subrange(32, 64) =~= word_of_u256(token_id));
    assert(b.subrange(64, 96) =~= word_of_u256(amount));
    assert(b.subrange(96, 128) =~= addr_word(payee));
    crate::abi::lemma_parse_addr_word(token);
    crate::abi::lemma_parse_addr_word(payee);
    crate::abi::lemma_parse_word_of_u256(token_id);
    crate::abi::lemma_parse_word_of_u256(amount);
}

/// The escrow decoder accepts nothing but canonical encodings.
pub proof fn lemma_erc1155_escrow_complete(b: Seq<u8>)
    requires
        parse_erc1155_escrow(b) is Some,
    ensures
        ({
            let f = parse_erc1155_escrow(b)->0;
            b == enc_erc1155_escrow(f.0, f.1, f.2, f.3, f.4)
        }),
{
    let f = parse_erc1155_escrow(b)->0;
    crate::abi::lemma_word_u64_complete(b.subrange(0, 32), 32);
    crate::abi::lemma_addr_word_complete(b.subrange(32, 64), f.0);
    crate::abi::lemma_word_u256_complete(b.subrange(64, 96));
    crate::abi::lemma_word_u256_complete(b.subrange(96, 128));
    crate::abi::lemma_addr_word_complete(b.subrange(128, 160), f.3);
    crate::abi::lemma_word_u64_complete(b.subrange(160, 192), 160);
    crate::abi::lemma_bytes_at_complete(b, 192, f.4);
    assert(b.take(192) =~= b.subrange(0, 32) + b.subrange(32, 64) + b.subrange(64, 96)
        + b.subrange(96, 128) + b.subrange(128, 160) + b.subrange(160, 192));
    assert(b.take(192) + bytes_enc(f.4) =~= enc_erc1155_escrow(f.0, f.1, f.2, f.3, f.4));
}

/// The payment decoder accepts nothing but canonical encodings.
pub proof fn lemma_erc1155_payment_complete(b: Seq<u8>)
    requires
        parse_erc1155_payment(b) is Some,
    ensures
        ({
            let f = parse_erc1155_payment(b)->0;
            b == enc_erc1155_payment(f.0, f.1, f.2, f.3)
        }),
{
    let f = parse_erc1155_payment(b)->0;
    crate::abi::lemma_addr_word_complete(b.subrange(0, 32), f.0);
    crate::abi::lemma_word_u256_complete(b.subrange(32, 64));
    crate::abi::lemma_word_u256_complete(b.subrange(64, 96));
    crate::abi::lemma_addr_word_complete(b.subrange(96, 128), f.3);
    assert(b =~= b.subrange(0, 32) + b.subrange(32, 64) + b.subrange(64, 96)
        + b.subrange(96, 128));
    assert(b.subrange(0, 32) + b.subrange(32, 64) + b.subrange(64, 96) + b.subrange(96, 128)
        =~= enc_erc1155_payment(f.0, f.1, f.2, f.3));
}

/// Decode after encode is the identity on whole escrow obligations: with
/// canonical address strings and canonical in-range decimal fields, every
/// field comes back unchanged (the decimal strings by canonical-decimal
/// uniqueness).
pub proof fn lemma_erc1155_escrow_codec_round_trip(token_s: Seq<char>, id_s: Seq<char>,
    amount_s: Seq<char>, arbiter_s: Seq<char>, demand: Seq<u8>)
    requires
        canonical_hex(token_s, 20),
        canonical_hex(arbiter_s, 20),
        is_canonical_dec(id_s),
        dec_string_in_range(id_s),
        is_canonical_dec(amount_s),
        dec_string_in_range(amount_s),
        demand.len() <= u64::MAX,
    ensures
        ({
            let tb = bytes_of_hex(hex_body(token_s));
            let ab = bytes_of_hex(hex_body(arbiter_s));
            let v = u256_of(dec_val(id_s));
            let w = u256_of(dec_val(amount_s));
            parse_erc1155_escrow(enc_erc1155_escrow(tb, v, w, ab, demand))
                == Some((tb, v, w, ab, demand))
                && hex_str_of(tb) == token_s && hex_str_of(ab) == arbiter_s
                && u256_val(v) == dec_val(id_s) && u256_val(w) == dec_val(amount_s)
        }),
{
    lemma_bytes_of_hex_len(hex_body(token_s));
    lemma_bytes_of_hex_len(hex_body(arbiter_s));
    lemma_u256_val_of(dec_val(id_s));
    lemma_u256_val_of(dec_val(amount_s));
    lemma_erc1155_escrow_round_trip(bytes_of_hex(hex_body(token_s)), u256_of(dec_val(id_s)),
        u256_of(dec_val(amount_s)), bytes_of_hex(hex_body(arbiter_s)), demand);
}

impl PyERC1155EscrowObligationData {
    pub fn new(token: String, token_id: String, amount: String, arbiter: String,
        demand: Vec<u8>) -> (r: Self)
        ensures
            r.token@ == token@,
            r.token_id@ == token_id@,
            r.amount@ == amount@,
            r.arbiter@ == arbiter@,
            r.demand@ == demand@,
    {
        PyERC1155EscrowObligationData { token, token_id, amount, arbiter, demand }
    }

    /// Encodes an obligation; fails fast on a malformed address string or a
    /// decimal field that is not a number below two to the 256th.
    pub fn encode(obligation: &PyERC1155EscrowObligationData) -> (r: Result<Vec<u8>,
        CodecError>)
        ensures
            r is Ok <==> is_fixed_hex(obligation.token@, 20)
                && dec_string_in_range(obligation.token_id@)
                && dec_string_in_range(obligation.amount@)
                && is_fixed_hex(obligation.arbiter@, 20),
            r matches Ok(bytes) ==> bytes@ == enc_erc1155_escrow(
                bytes_of_hex(hex_body(obligation.token@)),
                u256_of(dec_val(obligation.token_id@)), u256_of(dec_val(obligation.amount@)),
                bytes_of_hex(hex_body(obligation.arbiter@)), obligation.demand@),
            r matches Err(e) ==> e == CodecError::MalformedInput,
    {
        let token = match parse_fixed_hex(obligation.token.as_str(), 20) {
            Some(t) => t,
            None => {
                return Err(CodecError::MalformedInput);
            },
        };
        let token_id = match from_decimal(obligation.token_id.as_str()) {
            Some(v) => v,
            None => {
                return Err(CodecError::MalformedInput);
            },
        };
        let amount = match from_decimal(obligation.amount.as_str()) {
            Some(v) => v,
            None => {
                return Err(CodecError::MalformedInput);
            },
        };
        let arbiter = match parse_fixed_hex(obligation.arbiter.as_str(), 20) {
            Some(a) => a,
            None => {
                return Err(CodecError::MalformedInput);
            },
        };
        let mut out: Vec<u8> = Vec::new();
        push_word_u64(&mut out, 32);
        push_addr_word(&mut out, &token);
        push_u256_word(&mut out, &token_id);
        push_u256_word(&mut out, &amount);
        push_addr_word(&mut out, &arbiter);
        push_word_u64(&mut out, 160);
        push_bytes_enc(&mut out, &obligation.demand);
        proof {
            lemma_u256_of_val(token_id);
            lemma_u256_of_val(amount);
            assert(out@ =~= enc_erc1155_escrow(token@, token_id, amount, arbiter@,
                obligation.demand@));
        }
        Ok(out)
    }

    /// Decodes a canonical escrow encoding; addresses come back in the
    /// canonical lower-case `0x` form and the decimal fields as canonical
    /// decimal strings.
    pub fn decode(obligation_data: Vec<u8>) -> (r: Result<PyERC1155EscrowObligationData,
        CodecError>)
        ensures
            r is Ok <==> parse_erc1155_escrow(obligation_data@) is Some,
            r matches Ok(d) ==> (parse_erc1155_escrow(obligation_data@) matches Some(f)
                && d.token@ == hex_str_of(f.0) && is_canonical_dec(d.token_id@)
                && dec_val(d.token_id@) == u256_val(f.1) && is_canonical_dec(d.amount@)
                && dec_val(d.amount@) == u256_val(f.2)
                && d.arbiter@ == hex_str_of(f.3) && d.demand@ == f.4),
            r matches Err(e) ==> e == CodecError::Decode,
    {
        let b = &obligation_data;
        if b.len() < 224 {
            return Err(CodecError::Decode);
        }
        match read_word_u64(b, 0) {
            Some(x) => {
                if x != 32 {
                    return Err(CodecError::Decode);
                }
            },
            None => {
                return Err(CodecError::Decode);
            },
        }
        let token = match read_addr_word(b, 32) {
            Some(t) => t,
            None => {
                return Err(CodecError::Decode);
            },
        };
        let token_id = read_u256_word(b, 64);
        let amount = read_u256_word(b, 96);
        let arbiter = match read_addr_word(b, 128) {
            Some(a) => a,
            None => {
                return Err(CodecError::Decode);
            },
        };
        match read_word_u64(b, 160) {
            Some(x) => {
                if x != 160 {
                    return Err(CodecError::Decode);
                }
            },
            None => {
                return Err(CodecError::Decode);
            },
        }
        let demand = match read_bytes_at(b, 192) {
            Some(d) => d,
            None => {
                return Err(CodecError::Decode);
            },
        };
        Ok(PyERC1155EscrowObligationData {
            token: hex_encode_prefixed(&token),
            token_id: to_decimal(token_id),
            amount: to_decimal(amount),
            arbiter: hex_encode_prefixed(&arbiter),
            demand,
        })
    }

    pub fn encode_self(&self) -> (r: Result<Vec<u8>, CodecError>)
        ensures
            r is Ok <==> is_fixed_hex(self.token@, 20) && dec_string_in_range(self.token_id@)
                && dec_string_in_range(self.amount@) && is_fixed_hex(self.arbiter@, 20),
            r matches Ok(bytes) ==> bytes@ == enc_erc1155_escrow(
                bytes_of_hex(hex_body(self.token@)), u256_of(dec_val(self.token_id@)),
                u256_of(dec_val(self.amount@)), bytes_of_hex(hex_body(self.arbiter@)),
                self.demand@),
            r matches Err(e) ==> e == CodecError::MalformedInput,
    {
        PyERC1155EscrowObligationData::encode(self)
    }
}

impl PyERC1155PaymentObligationData {
    pub fn new(token: String, token_id: String, amount: String, payee: String) -> (r: Self)
        ensures
            r.token@ == token@,
            r.token_id@ == token_id@,
            r.amount@ == amount@,
            r.payee@ == payee@,
    {
        PyERC1155PaymentObligationData { token, token_id, amount, payee }
    }

    /// Encodes an obligation; fails fast on a malformed address string or a
    /// decimal field that is not a number below two to the 256th.
    pub fn encode(obligation: &PyERC1155PaymentObligationData) -> (r: Result<Vec<u8>,
        CodecError>)
        ensures
            r is Ok <==> is_fixed_hex(obligation.token@, 20)
                && dec_string_in_range(obligation.token_id@)
                && dec_string_in_range(obligation.amount@)
                && is_fixed_hex(obligation.payee@, 20),
            r matches Ok(bytes) ==> bytes@ == enc_erc1155_payment(
                bytes_of_hex(hex_body(obligation.token@)),
                u256_of(dec_val(obligation.token_id@)), u256_of(dec_val(obligation.amount@)),
                bytes_of_hex(hex_body(obligation.payee@))),
            r matches Err(e) ==> e == CodecError::MalformedInput,
    {
        let token = match parse_fixed_hex(obligation.token.as_str(), 20) {
            Some(t) => t,
            None => {
                return Err(CodecError::MalformedInput);
            },
        };
        let token_id = match from_decimal(obligation.token_id.as_str()) {
            Some(v) => v,
            None => {
                return Err(CodecError::MalformedInput);
            },
        };
        let amount = match from_decimal(obligation.amount.as_str()) {
            Some(v) => v,
            None => {
                return Err(CodecError::MalformedInput);
            },
        };
        let payee = match parse_fixed_hex(obligation.payee.as_str(), 20) {
            Some(p) => p,
            None => {
                return Err(CodecError::MalformedInput);
            },
        };
        let mut out: Vec<u8> = Vec::new();
        push_addr_word(&mut out, &token);
        push_u256_word(&mut out, &token_id);
        push_u256_word(&mut out, &amount);
        push_addr_word(&mut out, &payee);
        proof {
            lemma_u256_of_val(token_id);
            lemma_u256_of_val(amount);
            assert(out@ =~= enc_erc1155_payment(token@, token_id, amount, payee@));
        }
        Ok(out)
    }

    /// Decodes a canonical payment encoding.
    pub fn decode(obligation_data: Vec<u8>) -> (r: Result<PyERC1155PaymentObligationData,
        CodecError>)
        ensures
            r is Ok <==> parse_erc1155_payment(obligation_data@) is Some,
            r matches Ok(d) ==> (parse_erc1155_payment(obligation_data@) matches Some(f)
                && d.token@ == hex_str_of(f.0) && is_canonical_dec(d.token_id@)
                && dec_val(d.token_id@) == u256_val(f.1) && is_canonical_dec(d.amount@)
                && dec_val(d.amount@) == u256_val(f.2) && d.payee@ == hex_str_of(f.3)),
            r matches Err(e) ==> e == CodecError::Decode,
    {
        let b = &obligation_data;
        if b.len() != 128 {
            return Err(CodecError::Decode);
        }
        let token = match read_addr_word(b, 0) {
            Some(t) => t,
            None => {
                return Err(CodecError::Decode);
            },
        };
        let token_id = read_u256_word(b, 32);
        let amount = read_u256_word(b, 64);
        let payee = match read_addr_word(b, 96) {
            Some(p) => p,
            None => {
                return Err(CodecError::Decode);
            },
        };
        Ok(PyERC1155PaymentObligationData {
            token: hex_encode_prefixed(&token),
            token_id: to_decimal(token_id),
            amount: to_decimal(amount),
            payee: hex_encode_prefixed(&payee),
        })
    }

    pub fn encode_self(&self) -> (r: Result<Vec<u8>, CodecError>)
        ensures
            r is Ok <==> is_fixed_hex(self.token@, 20) && dec_string_in_range(self.token_id@)
                && dec_string_in_range(self.amount@) && is_fixed_hex(self.payee@, 20),
            r matches Ok(bytes) ==> bytes@ == enc_erc1155_payment(
                bytes_of_hex(hex_body(self.token@)), u256_of(dec_val(self.token_id@)),
                u256_of(dec_val(self.amount@)), bytes_of_hex(hex_body(self.payee@))),
            r matches Err(e) ==> e == CodecError::MalformedInput,
    {
        PyERC1155PaymentObligationData::encode(self)
    }
}

} // verus!
