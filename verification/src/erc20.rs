//! Obligation payloads for fungible-token escrow and payment: the structured
//! data, and its exact wire codec. An escrow obligation names the token, the
//! amount held, the arbiter whose demand must be satisfied, and the encoded
//! demand itself; a payment obligation names the token, the amount and the
//! payee.

use vstd::prelude::*;

use crate::CodecError;
use crate::abi::{
    addr_word, bytes_enc, parse_addr_word, parse_bytes_at, parse_u64_word, push_addr_word,
    push_bytes_enc, push_word_u64, read_addr_word, read_bytes_at, read_word_u64, word_of_u64,
};
use crate::hexstr::{
    bytes_of_hex, canonical_hex, hex_body, hex_encode_prefixed, hex_str_of, is_fixed_hex,
    lemma_bytes_of_hex_len, parse_fixed_hex,
};

verus! {

/// An escrow obligation: `amount` of `token` held until `arbiter` is
/// satisfied with `demand`.
#[derive(Clone, Debug)]
pub struct PyERC20EscrowObligationData {
    pub token: String,
    pub amount: u64,
    pub arbiter: String,
    pub demand: Vec<u8>,
}

/// A payment obligation: `amount` of `token` owed to `payee`.
#[derive(Clone, Debug)]
pub struct PyERC20PaymentObligationData {
    pub token: String,
    pub amount: u64,
    pub payee: String,
}

/// The wire form of an escrow obligation: offset word, token word, amount
/// word, arbiter word, demand offset word, then the demand bytes.
pub open spec fn enc_erc20_escrow(token: Seq<u8>, amount: u64, arbiter: Seq<u8>,
    demand: Seq<u8>) -> Seq<u8>
    recommends
        token.len() == 20,
        arbiter.len() == 20,
        demand.len() <= u64::MAX,
{
    word_of_u64(32) + addr_word(token) + word_of_u64(amount) + addr_word(arbiter)
        + word_of_u64(128) + bytes_enc(demand)
}

/// The fields of a canonical escrow encoding; `None` on anything else.
pub open spec fn parse_erc20_escrow(b: Seq<u8>) -> Option<(Seq<u8>, u64, Seq<u8>, Seq<u8>)> {
    if b.len() >= 160
        && parse_u64_word(b.subrange(0, 32)) == Some(32u64)
        && parse_addr_word(b.subrange(32, 64)) is Some
        && parse_u64_word(b.subrange(64, 96)) is Some
        && parse_addr_word(b.subrange(96, 128)) is Some
        && parse_u64_word(b.subrange(128, 160)) == Some(128u64)
        && parse_bytes_at(b, 160) is Some {
        Some((parse_addr_word(b.subrange(32, 64))->0, parse_u64_word(b.subrange(64, 96))->0,
            parse_addr_word(b.subrange(96, 128))->0, parse_bytes_at(b, 160)->0))
    } else {
        None
    }
}

/// The wire form of a payment obligation: three static words.
pub open spec fn enc_erc20_payment(token: Seq<u8>, amount: u64, payee: Seq<u8>) -> Seq<u8>
    recommends
        token.len() == 20,
        payee.len() == 20,
{
    addr_word(token) + word_of_u64(amount) + addr_word(payee)
}

/// The fields of a canonical payment encoding; `None` on anything else.
pub open spec fn parse_erc20_payment(b: Seq<u8>) -> Option<(Seq<u8>, u64, Seq<u8>)> {
    if b.len() == 96
        && parse_addr_word(b.subrange(0, 32)) is Some
        && parse_u64_word(b.subrange(32, 64)) is Some
        && parse_addr_word(b.subrange(64, 96)) is Some {
        Some((parse_addr_word(b.subrange(0, 32))->0, parse_u64_word(b.subrange(32, 64))->0,
            parse_addr_word(b.subrange(64, 96))->0))
    } else {
        None
    }
}

/// Decoding inverts encoding for every well-formed escrow obligation.
pub proof fn lemma_erc20_escrow_round_trip(token: Seq<u8>, amount: u64, arbiter: Seq<u8>,
    demand: Seq<u8>)
    requires
        token.len() == 20,
        arbiter.len() == 20,
        demand.len() <= u64::MAX,
    ensures
        parse_erc20_escrow(enc_erc20_escrow(token, amount, arbiter, demand))
            == Some((token, amount, arbiter, demand)),
{
    let b = enc_erc20_escrow(token, amount, arbiter, demand);
    let head = word_of_u64(32) + addr_word(token) + word_of_u64(amount) + addr_word(arbiter)
        + word_of_u64(128);
    assert(b.subrange(0, 32) =~= word_of_u64(32));
    assert(b.subrange(32, 64) =~= addr_word(token));
    assert(b.subrange(64, 96) =~= word_of_u64(amount));
    assert(b.subrange(96, 128) =~= addr_word(arbiter));
    assert(b.subrange(128, 160) =~= word_of_u64(128));
    crate::abi::lemma_parse_word_of_u64(32);
    crate::abi::lemma_parse_word_of_u64(amount);
    crate::abi::lemma_parse_word_of_u64(128);
    crate::abi::lemma_parse_addr_word(token);
    crate::abi::lemma_parse_addr_word(arbiter);
    assert(head.len() == 160);
    assert(b =~= head + bytes_enc(demand));
    crate::abi::lemma_parse_bytes_enc(head, demand);
}

/// Decoding inverts encoding for every well-formed payment obligation.
pub proof fn lemma_erc20_payment_round_trip(token: Seq<u8>, amount: u64, payee: Seq<u8>)
    requires
        token.len() == 20,
        payee.len() == 20,
    ensures
        parse_erc20_payment(enc_erc20_payment(token, amount, payee))
            == Some((token, amount, payee)),
{
    let b = enc_erc20_payment(token, amount, payee);
    assert(b.subrange(0, 32) =~= addr_word(token));
    assert(b.subrange(32, 64) =~= word_of_u64(amount));
    assert(b.subrange(64, 96) =~= addr_word(payee));
    crate::abi::lemma_parse_word_of_u64(amount);
    crate::abi::lemma_parse_addr_word(token);
    crate::abi::lemma_parse_addr_word(payee);
}

/// The decoder accepts nothing but canonical encodings: any accepted buffer
/// is exactly the encoding of the fields read from it.
pub proof fn lemma_erc20_escrow_complete(b: Seq<u8>)
    requires
        parse_erc20_escrow(b) is Some,
    ensures
        ({
            let f = parse_erc20_escrow(b)->0;
            b == enc_erc20_escrow(f.0, f.1, f.2, f.3)
        }),
{
    let f = parse_erc20_escrow(b)->0;
    crate::abi::lemma_word_u64_complete(b.subrange(0, 32), 32);
    crate::abi::lemma_addr_word_complete(b.subrange(32, 64), f.0);
    crate::abi::lemma_word_u64_complete(b.subrange(64, 96), f.1);
    crate::abi::lemma_addr_word_complete(b.subrange(96, 128), f.2);
    crate::abi::lemma_word_u64_complete(b.subrange(128, 160), 128);
    crate::abi::lemma_bytes_at_complete(b, 160, f.3);
    assert(b.take(160) =~= b.subrange(0, 32) + b.subrange(32, 64) + b.subrange(64, 96)
        + b.subrange(96, 128) + b.subrange(128, 160));
    assert(b.take(160) + bytes_enc(f.3) =~= enc_erc20_escrow(f.0, f.1, f.2, f.3));
}

/// The payment decoder accepts nothing but canonical encodings.
pub proof fn lemma_erc20_payment_complete(b: Seq<u8>)
    requires
        parse_erc20_payment(b) is Some,
    ensures
        ({
            let f = parse_erc20_payment(b)->0;
            b == enc_erc20_payment(f.0, f.1, f.2)
        }),
{
    let f = parse_erc20_payment(b)->0;
    crate::abi::lemma_addr_word_complete(b.subrange(0, 32), f.0);
    crate::abi::lemma_word_u64_complete(b.subrange(32, 64), f.1);
    crate::abi::lemma_addr_word_complete(b.subrange(64, 96), f.2);
    assert(b =~= b.subrange(0, 32) + b.subrange(32, 64) + b.subrange(64, 96));
    assert(b.subrange(0, 32) + b.subrange(32, 64) + b.subrange(64, 96)
        =~= enc_erc20_payment(f.0, f.1, f.2));
}

/// Decode after encode is the identity on whole escrow obligations: with
/// canonical address strings, every field — the re-rendered addresses
/// included — comes back unchanged.
pub proof fn lemma_erc20_escrow_codec_round_trip(token_s: Seq<char>, amount: u64,
    arbiter_s: Seq<char>, demand: Seq<u8>)
    requires
        canonical_hex(token_s, 20),
        canonical_hex(arbiter_s, 20),
        demand.len() <= u64::MAX,
    ensures
        ({
            let tb = bytes_of_hex(hex_body(token_s));
            let ab = bytes_of_hex(hex_body(arbiter_s));
            parse_erc20_escrow(enc_erc20_escrow(tb, amount, ab, demand))
                == Some((tb, amount, ab, demand))
                && hex_str_of(tb) == token_s && hex_str_of(ab) == arbiter_s
        }),
{
    lemma_bytes_of_hex_len(hex_body(token_s));
    lemma_bytes_of_hex_len(hex_body(arbiter_s));
    lemma_erc20_escrow_round_trip(bytes_of_hex(hex_body(token_s)), amount,
        bytes_of_hex(hex_body(arbiter_s)), demand);
}

/// Decode after encode is the identity on whole payment obligations, with
/// canonical address strings.
pub proof fn lemma_erc20_payment_codec_round_trip(token_s: Seq<char>, amount: u64,
    payee_s: Seq<char>)
    requires
        canonical_hex(token_s, 20),
        canonical_hex(payee_s, 20),
    ensures
        ({
            let tb = bytes_of_hex(hex_body(token_s));
            let pb = bytes_of_hex(hex_body(payee_s));
            parse_erc20_payment(enc_erc20_payment(tb, amount, pb)) == Some((tb, amount, pb))
                && hex_str_of(tb) == token_s && hex_str_of(pb) == payee_s
        }),
{
    lemma_bytes_of_hex_len(hex_body(token_s));
    lemma_bytes_of_hex_len(hex_body(payee_s));
    lemma_erc20_payment_round_trip(bytes_of_hex(hex_body(token_s)), amount,
        bytes_of_hex(hex_body(payee_s)));
}

impl PyERC20EscrowObligationData {
    pub fn new(token: String, amount: u64, arbiter: String, demand: Vec<u8>) -> (r: Self)
        ensures
            r.token@ == token@,
            r.amount == amount,
            r.arbiter@ == arbiter@,
            r.demand@ == demand@,
    {
        PyERC20EscrowObligationData { token, amount, arbiter, demand }
    }

    /// Encodes an obligation; fails fast if either address string is not 20
    /// bytes of hex.
    pub fn encode(obligation: &PyERC20EscrowObligationData) -> (r: Result<Vec<u8>, CodecError>)
        ensures
            r is Ok <==> is_fixed_hex(obligation.token@, 20)
                && is_fixed_hex(obligation.arbiter@, 20),
            r matches Ok(bytes) ==> bytes@ == enc_erc20_escrow(
                bytes_of_hex(hex_body(obligation.token@)), obligation.amount,
                bytes_of_hex(hex_body(obligation.arbiter@)), obligation.demand@),
            r matches Err(e) ==> e == CodecError::MalformedInput,
    {
        let token = match parse_fixed_hex(obligation.token.as_str(), 20) {
            Some(t) => t,
            None => {
                return Err(CodecError::MalformedInput);
            },
        };
        let arbiter = match parse_fixed_hex(obligation.arbiter.as_str(), 20) {
            Some(a) => a,
            None => {
                return Err(CodecError::MalformedInput);
            },
        };
        let mut out: Vec<u8> = Vec::new();
        push_word_u64(&mut out, 32);
        push_addr_word(&mut out, &token);
        push_word_u64(&mut out, obligation.amount);
        push_addr_word(&mut out, &arbiter);
        push_word_u64(&mut out, 128);
        push_bytes_enc(&mut out, &obligation.demand);
        proof {
            assert(out@ =~= enc_erc20_escrow(token@, obligation.amount, arbiter@,
                obligation.demand@));
        }
        Ok(out)
    }

    /// Decodes a canonical escrow encoding; addresses come back in the
    /// canonical lower-case `0x` form, and an amount word past 64 bits is
    /// rejected like any other shape error.
    pub fn decode(obligation_data: Vec<u8>) -> (r: Result<PyERC20EscrowObligationData,
        CodecError>)
        ensures
            r is Ok <==> parse_erc20_escrow(obligation_data@) is Some,
            r matches Ok(d) ==> (parse_erc20_escrow(obligation_data@) matches Some(f)
                && d.token@ == hex_str_of(f.0) && d.amount == f.1
                && d.arbiter@ == hex_str_of(f.2) && d.demand@ == f.3),
            r matches Err(e) ==> e == CodecError::Decode,
    {
        let b = &obligation_data;
        if b.len() < 192 {
            return Err(CodecError::Decode);
        }
        match read_word_u64(b, 0) {
            Some(x) => {
                if x != 32 {
                    return Err(CodecError::Decode);
                }
            },
            None => {
                return Err(CodecError::Decode);
            },
        }
        let token = match read_addr_word(b, 32) {
            Some(t) => t,
            None => {
                return Err(CodecError::Decode);
            },
        };
        let amount = match read_word_u64(b, 64) {
            Some(x) => x,
            None => {
                return Err(CodecError::Decode);
            },
        };
        let arbiter = match read_addr_word(b, 96) {
            Some(a) => a,
            None => {
                return Err(CodecError::Decode);
            },
        };
        match read_word_u64(b, 128) {
            Some(x) => {
                if x != 128 {
                    return Err(CodecError::Decode);
                }
            },
            None => {
                return Err(CodecError::Decode);
            },
        }
        let demand = match read_bytes_at(b, 160) {
            Some(d) => d,
            None => {
                return Err(CodecError::Decode);
            },
        };
        Ok(PyERC20EscrowObligationData {
            token: hex_encode_prefixed(&token),
            amount,
            arbiter: hex_encode_prefixed(&arbiter),
            demand,
        })
    }

    pub fn encode_self(&self) -> (r: Result<Vec<u8>, CodecError>)
        ensures
            r is Ok <==> is_fixed_hex(self.token@, 20) && is_fixed_hex(self.arbiter@, 20),
            r matches Ok(bytes) ==> bytes@ == enc_erc20_escrow(
                bytes_of_hex(hex_body(self.token@)), self.amount,
                bytes_of_hex(hex_body(self.arbiter@)), self.demand@),
            r matches Err(e) ==> e == CodecError::MalformedInput,
    {
        PyERC20EscrowObligationData::encode(self)
    }
}

impl PyERC20PaymentObligationData {
    pub fn new(token: String, amount: u64, payee: String) -> (r: Self)
        ensures
            r.token@ == token@,
            r.amount == amount,
            r.payee@ == payee@,
    {
        PyERC20PaymentObligationData { token, amount, payee }
    }

    /// Encodes an obligation; fails fast if either address string is not 20
    /// bytes of hex.
    pub fn encode(obligation: &PyERC20PaymentObligationData) -> (r: Result<Vec<u8>, CodecError>)
        ensures
            r is Ok <==> is_fixed_hex(obligation.token@, 20)
                && is_fixed_hex(obligation.payee@, 20),
            r matches Ok(bytes) ==> bytes@ == enc_erc20_payment(
                bytes_of_hex(hex_body(obligation.token@)), obligation.amount,
                bytes_of_hex(hex_body(obligation.payee@))),
            r matches Err(e) ==> e == CodecError::MalformedInput,
    {
        let token = match parse_fixed_hex(obligation.token.as_str(), 20) {
            Some(t) => t,
            None => {
                return Err(CodecError::MalformedInput);
            },
        };
        let payee = match parse_fixed_hex(obligation.payee.as_str(), 20) {
            Some(p) => p,
            None => {
                return Err(CodecError::MalformedInput);
            },
        };
        let mut out: Vec<u8> = Vec::new();
        push_addr_word(&mut out, &token);
        push_word_u64(&mut out, obligation.amount);
        push_addr_word(&mut out, &payee);
        proof {
            assert(out@ =~= enc_erc20_payment(token@, obligation.amount, payee@));
        }
        Ok(out)
    }

    /// Decodes a canonical payment encoding.
    pub fn decode(obligation_data: Vec<u8>) -> (r: Result<PyERC20PaymentObligationData,
        CodecError>)
        ensures
            r is Ok <==> parse_erc20_payment(obligation_data@) is Some,
            r matches Ok(d) ==> (parse_erc20_payment(obligation_data@) matches Some(f)
                && d.token@ == hex_str_of(f.0) && d.amount == f.1
                && d.payee@ == hex_str_of(f.2)),
            r matches Err(e) ==> e == CodecError::Decode,
    {
        let b = &obligation_data;
        if b.len() != 96 {
            return Err(CodecError::Decode);
        }
        let token = match read_addr_word(b, 0) {
            Some(t) => t,
            None => {
                return Err(CodecError::Decode);
            },
        };
        let amount = match read_word_u64(b, 32) {
            Some(x) => x,
            None => {
                return Err(CodecError::Decode);
            },
        };
        let payee = match read_addr_word(b, 64) {
            Some(p) => p,
            None => {
                return Err(CodecError::Decode);
            },
        };
        Ok(PyERC20PaymentObligationData {
            token: hex_encode_prefixed(&token),
            amount,
            payee: hex_encode_prefixed(&payee),
        })
    }

    pub fn encode_self(&self) -> (r: Result<Vec<u8>, CodecError>)
        ensures
            r is Ok <==> is_fixed_hex(self.token@, 20) && is_fixed_hex(self.payee@, 20),
            r matches Ok(bytes) ==> bytes@ == enc_erc20_payment(
                bytes_of_hex(hex_body(self.token@)), self.amount,
                bytes_of_hex(hex_body(self.payee@))),
            r matches Err(e) ==> e == CodecError::MalformedInput,
    {
        PyERC20PaymentObligationData::encode(self)
    }
}

} // verus!
