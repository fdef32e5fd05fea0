//! The ledger ABI wire format for the payloads this library reads and
//! writes: 32-byte big-endian words, left-padded 20-byte addresses, and
//! length-prefixed byte strings padded to a word boundary. Dynamic members
//! sit behind canonical head offsets. Encoders and decoders are exact
//! inverses on canonical encodings; the decoders accept nothing else.

use vstd::prelude::*;

verus! {

pub open spec fn zeros(n: nat) -> Seq<u8> {
    Seq::new(n, |i: int| 0u8)
}

/// The eight big-endian bytes of a 64-bit value.
pub open spec fn u64_be(x: u64) -> Seq<u8> {
    seq![
        ((x >> 56) & 0xff) as u8,
        ((x >> 48) & 0xff) as u8,
        ((x >> 40) & 0xff) as u8,
        ((x >> 32) & 0xff) as u8,
        ((x >> 24) & 0xff) as u8,
        ((x >> 16) & 0xff) as u8,
        ((x >> 8) & 0xff) as u8,
        (x & 0xff) as u8,
    ]
}

/// The 64-bit value of eight big-endian bytes.
pub open spec fn u64_of_be(s: Seq<u8>) -> u64
    recommends
        s.len() == 8,
{
    ((s[0] as u64) << 56) | ((s[1] as u64) << 48) | ((s[2] as u64) << 40)
        | ((s[3] as u64) << 32) | ((s[4] as u64) << 24) | ((s[5] as u64) << 16)
        | ((s[6] as u64) << 8) | (s[7] as u64)
}

/// A 32-byte word holding a 64-bit value (the only word shapes this format
/// uses for lengths, offsets and amounts).
pub open spec fn word_of_u64(x: u64) -> Seq<u8> {
    zeros(24) + u64_be(x)
}

/// A 32-byte word holding a 20-byte address.
pub open spec fn addr_word(a: Seq<u8>) -> Seq<u8>
    recommends
        a.len() == 20,
{
    zeros(12) + a
}

/// How many zero bytes follow `n` payload bytes to reach a word boundary.
pub open spec fn pad_of(n: nat) -> nat {
    ((32 - (n % 32)) % 32) as nat
}

/// A dynamic byte string: length word, payload, zero padding.
pub open spec fn bytes_enc(data: Seq<u8>) -> Seq<u8>
    recommends
        data.len() <= u64::MAX,
{
    word_of_u64(data.len() as u64) + data + zeros(pad_of(data.len()))
}

/// The value of a word that holds a 64-bit quantity; `None` if any of the
/// high 24 bytes is set.
pub open spec fn parse_u64_word(w: Seq<u8>) -> Option<u64>
    recommends
        w.len() == 32,
{
    if w.take(24) == zeros(24) {
        Some(u64_of_be(w.skip(24)))
    } else {
        None
    }
}

/// The address in a word; `None` unless the high 12 bytes are zero.
pub open spec fn parse_addr_word(w: Seq<u8>) -> Option<Seq<u8>>
    recommends
        w.len() == 32,
{
    if w.take(12) == zeros(12) {
        Some(w.skip(12))
    } else {
        None
    }
}

/// The payload of a dynamic byte string whose length word sits at `off` and
/// whose padded payload must run exactly to the end of `b`.
pub open spec fn parse_bytes_at(b: Seq<u8>, off: int) -> Option<Seq<u8>> {
    if 0 <= off && off + 32 <= b.len() {
        match parse_u64_word(b.subrange(off, off + 32)) {
            Some(l) => {
                if b.len() - (off + 32) == l + pad_of(l as nat)
                    && b.skip(off + 32 + l) == zeros(pad_of(l as nat)) {
                    Some(b.subrange(off + 32, off + 32 + l))
                } else {
                    None
                }
            },
            None => None,
        }
    } else {
        None
    }
}

pub proof fn lemma_u64_be_of_be(x: u64)
    ensures
        u64_of_be(u64_be(x)) == x,
{
    let s = u64_be(x);
    assert(((((x >> 56) & 0xff) as u8) as u64) << 56
        | ((((x >> 48) & 0xff) as u8) as u64) << 48
        | ((((x >> 40) & 0xff) as u8) as u64) << 40
        | ((((x >> 32) & 0xff) as u8) as u64) << 32
        | ((((x >> 24) & 0xff) as u8) as u64) << 24
        | ((((x >> 16) & 0xff) as u8) as u64) << 16
        | ((((x >> 8) & 0xff) as u8) as u64) << 8
        | (((x & 0xff) as u8) as u64) == x) by (bit_vector);
}

/// A length word parses back to the length it was made from.
pub proof fn lemma_parse_word_of_u64(x: u64)
    ensures
        parse_u64_word(word_of_u64(x)) == Some(x),
{
    let w = word_of_u64(x);
    assert(w.take(24) =~= zeros(24));
    assert(w.skip(24) =~= u64_be(x));
    lemma_u64_be_of_be(x);
}

/// An address word parses back to its address.
pub proof fn lemma_parse_addr_word(a: Seq<u8>)
    requires
        a.len() == 20,
    ensures
        parse_addr_word(addr_word(a)) == Some(a),
{
    let w = addr_word(a);
    assert(w.take(12) =~= zeros(12));
    assert(w.skip(12) =~= a);
}

/// A dynamic byte string at the tail of a buffer parses back to its payload.
pub proof fn lemma_parse_bytes_enc(prefix: Seq<u8>, data: Seq<u8>)
    requires
        data.len() <= u64::MAX,
    ensures
        parse_bytes_at(prefix + bytes_enc(data), prefix.len() as int) == Some(data),
{
    let off = prefix.len() as int;
    let b = prefix + bytes_enc(data);
    assert(b.subrange(off, off + 32) =~= word_of_u64(data.len() as u64));
    lemma_parse_word_of_u64(data.len() as u64);
    let l = data.len() as int;
    assert(b.len() - (off + 32) == l + pad_of(data.len()));
    assert(b.skip(off + 32 + l) =~= zeros(pad_of(data.len())));
    assert(b.subrange(off + 32, off + 32 + l) =~= data);
}

/// Eight bytes re-encode to themselves: `u64_be` inverts `u64_of_be`.
pub proof fn lemma_u64_of_be_be(s: Seq<u8>)
    requires
        s.len() == 8,
    ensures
        u64_be(u64_of_be(s)) == s,
{
    let b0 = s[0];
    let b1 = s[1];
    let b2 = s[2];
    let b3 = s[3];
    let b4 = s[4];
    let b5 = s[5];
    let b6 = s[6];
    let b7 = s[7];
    assert(((((b0 as u64) << 56 | (b1 as u64) << 48 | (b2 as u64) << 40 | (b3 as u64) << 32
        | (b4 as u64) << 24 | (b5 as u64) << 16 | (b6 as u64) << 8 | (b7 as u64)) >> 56)
        & 0xff) as u8 == b0) by (bit_vector);
    assert(((((b0 as u64) << 56 | (b1 as u64) << 48 | (b2 as u64) << 40 | (b3 as u64) << 32
        | (b4 as u64) << 24 | (b5 as u64) << 16 | (b6 as u64) << 8 | (b7 as u64)) >> 48)
        & 0xff) as u8 == b1) by (bit_vector);
    assert(((((b0 as u64) << 56 | (b1 as u64) << 48 | (b2 as u64) << 40 | (b3 as u64) << 32
        | (b4 as u64) << 24 | (b5 as u64) << 16 | (b6 as u64) << 8 | (b7 as u64)) >> 40)
        & 0xff) as u8 == b2) by (bit_vector);
    assert(((((b0 as u64) << 56 | (b1 as u64) << 48 | (b2 as u64) << 40 | (b3 as u64) << 32
        | (b4 as u64) << 24 | (b5 as u64) << 16 | (b6 as u64) << 8 | (b7 as u64)) >> 32)
        & 0xff) as u8 == b3) by (bit_vector);
    assert(((((b0 as u64) << 56 | (b1 as u64) << 48 | (b2 as u64) << 40 | (b3 as u64) << 32
        | (b4 as u64) << 24 | (b5 as u64) << 16 | (b6 as u64) << 8 | (b7 as u64)) >> 24)
        & 0xff) as u8 == b4) by (bit_vector);
    assert(((((b0 as u64) << 56 | (b1 as u64) << 48 | (b2 as u64) << 40 | (b3 as u64) << 32
        | (b4 as u64) << 24 | (b5 as u64) << 16 | (b6 as u64) << 8 | (b7 as u64)) >> 16)
        & 0xff) as u8 == b5) by (bit_vector);
    assert(((((b0 as u64) << 56 | (b1 as u64) << 48 | (b2 as u64) << 40 | (b3 as u64) << 32
        | (b4 as u64) << 24 | (b5 as u64) << 16 | (b6 as u64) << 8 | (b7 as u64)) >> 8)
        & 0xff) as u8 == b6) by (bit_vector);
    assert((((b0 as u64) << 56 | (b1 as u64) << 48 | (b2 as u64) << 40 | (b3 as u64) << 32
        | (b4 as u64) << 24 | (b5 as u64) << 16 | (b6 as u64) << 8 | (b7 as u64))
        & 0xff) as u8 == b7) by (bit_vector);
    assert(u64_be(u64_of_be(s)) =~= s);
}

/// A word accepted as a 64-bit quantity is that quantity's canonical word.
pub proof fn lemma_word_u64_complete(w: Seq<u8>, x: u64)
    requires
        w.len() == 32,
        parse_u64_word(w) == Some(x),
    ensures
        w == word_of_u64(x),
{
    lemma_u64_of_be_be(w.skip(24));
    assert(w =~= w.take(24) + w.skip(24));
    assert(word_of_u64(x) =~= w.take(24) + w.skip(24));
}

/// A word accepted as an address is that address's canonical word.
pub proof fn lemma_addr_word_complete(w: Seq<u8>, a: Seq<u8>)
    requires
        w.len() == 32,
        parse_addr_word(w) == Some(a),
    ensures
        w == addr_word(a),
{
    assert(w =~= w.take(12) + w.skip(12));
    assert(addr_word(a) =~= w.take(12) + w.skip(12));
}

/// A dynamic byte string accepted at `off` occupies exactly the canonical
/// tail: the buffer is its prefix followed by the canonical encoding.
pub proof fn lemma_bytes_at_complete(b: Seq<u8>, off: int, d: Seq<u8>)
    requires
        parse_bytes_at(b, off) == Some(d),
    ensures
        b == b.take(off) + bytes_enc(d),
{
    let l = parse_u64_word(b.subrange(off, off + 32))->0;
    lemma_word_u64_complete(b.subrange(off, off + 32), l);
    assert(d == b.subrange(off + 32, off + 32 + l));
    assert(d.len() == l);
    assert(b.skip(off + 32 + l) == zeros(pad_of(l as nat)));
    assert(b =~= b.take(off) + b.subrange(off, off + 32) + b.subrange(off + 32, off + 32 + l)
        + b.skip(off + 32 + l));
    assert(b.take(off) + b.subrange(off, off + 32) + b.subrange(off + 32, off + 32 + l)
        + b.skip(off + 32 + l) =~= b.take(off) + bytes_enc(d));
}

/// The word for a full 256-bit value, most significant limb first.
pub open spec fn word_of_u256(x: crate::uint256::U256) -> Seq<u8> {
    u64_be(x.l3) + u64_be(x.l2) + u64_be(x.l1) + u64_be(x.l0)
}

/// The 256-bit value a word holds; every word is meaningful.
pub open spec fn parse_u256_word(w: Seq<u8>) -> crate::uint256::U256
    recommends
        w.len() == 32,
{
    crate::uint256::U256 {
        l3: u64_of_be(w.subrange(0, 8)),
        l2: u64_of_be(w.subrange(8, 16)),
        l1: u64_of_be(w.subrange(16, 24)),
        l0: u64_of_be(w.subrange(24, 32)),
    }
}

/// A 256-bit word parses back to the value it was made from.
pub proof fn lemma_parse_word_of_u256(x: crate::uint256::U256)
    ensures
        parse_u256_word(word_of_u256(x)) == x,
{
    let w = word_of_u256(x);
    assert(w.subrange(0, 8) =~= u64_be(x.l3));
    assert(w.subrange(8, 16) =~= u64_be(x.l2));
    assert(w.subrange(16, 24) =~= u64_be(x.l1));
    assert(w.subrange(24, 32) =~= u64_be(x.l0));
    lemma_u64_be_of_be(x.l3);
    lemma_u64_be_of_be(x.l2);
    lemma_u64_be_of_be(x.l1);
    lemma_u64_be_of_be(x.l0);
}

/// Every 32-byte word is the canonical word of the value read from it.
pub proof fn lemma_word_u256_complete(w: Seq<u8>)
    requires
        w.len() == 32,
    ensures
        word_of_u256(parse_u256_word(w)) == w,
{
    lemma_u64_of_be_be(w.subrange(0, 8));
    lemma_u64_of_be_be(w.subrange(8, 16));
    lemma_u64_of_be_be(w.subrange(16, 24));
    lemma_u64_of_be_be(w.subrange(24, 32));
    assert(word_of_u256(parse_u256_word(w))
        =~= w.subrange(0, 8) + w.subrange(8, 16) + w.subrange(16, 24) + w.subrange(24, 32));
    assert(w.subrange(0, 8) + w.subrange(8, 16) + w.subrange(16, 24) + w.subrange(24, 32)
        =~= w);
}

/// Appends the eight big-endian bytes of a 64-bit value.
pub fn push_u64_be(out: &mut Vec<u8>, x: u64)
    ensures
        final(out)@ == old(out)@ + u64_be(x),
{
    let ghost base = out@;
    out.push(#[verifier::truncate] (((x >> 56) & 0xff) as u8));
    out.push(#[verifier::truncate] (((x >> 48) & 0xff) as u8));
    out.push(#[verifier::truncate] (((x >> 40) & 0xff) as u8));
    out.push(#[verifier::truncate] (((x >> 32) & 0xff) as u8));
    out.push(#[verifier::truncate] (((x >> 24) & 0xff) as u8));
    out.push(#[verifier::truncate] (((x >> 16) & 0xff) as u8));
    out.push(#[verifier::truncate] (((x >> 8) & 0xff) as u8));
    out.push(#[verifier::truncate] ((x & 0xff) as u8));
    proof {
        assert(out@ =~= base + u64_be(x));
    }
}

/// Appends the word for a 256-bit value.
pub fn push_u256_word(out: &mut Vec<u8>, x: &crate::uint256::U256)
    ensures
        final(out)@ == old(out)@ + word_of_u256(*x),
{
    let ghost base = out@;
    push_u64_be(out, x.l3);
    push_u64_be(out, x.l2);
    push_u64_be(out, x.l1);
    push_u64_be(out, x.l0);
    proof {
        assert(out@ =~= base + word_of_u256(*x));
    }
}

/// Reads the word at `off` as a 256-bit value.
pub fn read_u256_word(b: &Vec<u8>, off: usize) -> (r: crate::uint256::U256)
    requires
        off + 32 <= b@.len(),
    ensures
        r == parse_u256_word(b@.subrange(off as int, off as int + 32)),
{
    let n: usize = b.len();
    let l3 = read_u64_be(b, off);
    let l2 = read_u64_be(b, off + 8);
    let l1 = read_u64_be(b, off + 16);
    let l0 = read_u64_be(b, off + 24);
    proof {
        let w = b@.subrange(off as int, off as int + 32);
        assert(w.subrange(0, 8) =~= b@.subrange(off as int, off as int + 8));
        assert(w.subrange(8, 16) =~= b@.subrange(off as int + 8, off as int + 16));
        assert(w.subrange(16, 24) =~= b@.subrange(off as int + 16, off as int + 24));
        assert(w.subrange(24, 32) =~= b@.subrange(off as int + 24, off as int + 32));
    }
    crate::uint256::U256 { l0, l1, l2, l3 }
}

/// Reads eight big-endian bytes at `off` as a 64-bit value.
fn read_u64_be(b: &Vec<u8>, off: usize) -> (r: u64)
    requires
        off + 8 <= b@.len(),
    ensures
        r == u64_of_be(b@.subrange(off as int, off as int + 8)),
{
    let n: usize = b.len();
    let x: u64 = ((b[off] as u64) << 56) | ((b[off + 1] as u64) << 48)
        | ((b[off + 2] as u64) << 40) | ((b[off + 3] as u64) << 32)
        | ((b[off + 4] as u64) << 24) | ((b[off + 5] as u64) << 16)
        | ((b[off + 6] as u64) << 8) | (b[off + 7] as u64);
    proof {
        let t = b@.subrange(off as int, off as int + 8);
        assert(t[0] == b@[off as int]);
        assert(t[1] == b@[off as int + 1]);
        assert(t[2] == b@[off as int + 2]);
        assert(t[3] == b@[off as int + 3]);
        assert(t[4] == b@[off as int + 4]);
        assert(t[5] == b@[off as int + 5]);
        assert(t[6] == b@[off as int + 6]);
        assert(t[7] == b@[off as int + 7]);
    }
    x
}

/// Appends the word for a 64-bit value.
pub fn push_word_u64(out: &mut Vec<u8>, x: u64)
    ensures
        final(out)@ == old(out)@ + word_of_u64(x),
{
    let ghost base = out@;
    let mut i: usize = 0;
    while i < 24
        invariant
            i <= 24,
            out@ == base + zeros(i as nat),
        decreases 24 - i,
    {
        out.push(0u8);
        proof {
            assert(base + zeros(i as nat).push(0u8) =~= base + zeros((i + 1) as nat));
            assert((base + zeros(i as nat)).push(0u8) =~= base + zeros(i as nat).push(0u8));
        }
        i = i + 1;
    }
    out.push(#[verifier::truncate] (((x >> 56) & 0xff) as u8));
    out.push(#[verifier::truncate] (((x >> 48) & 0xff) as u8));
    out.push(#[verifier::truncate] (((x >> 40) & 0xff) as u8));
    out.push(#[verifier::truncate] (((x >> 32) & 0xff) as u8));
    out.push(#[verifier::truncate] (((x >> 24) & 0xff) as u8));
    out.push(#[verifier::truncate] (((x >> 16) & 0xff) as u8));
    out.push(#[verifier::truncate] (((x >> 8) & 0xff) as u8));
    out.push(#[verifier::truncate] ((x & 0xff) as u8));
    proof {
        assert(out@ =~= base + word_of_u64(x));
    }
}

/// Appends the word for a 20-byte address.
pub fn push_addr_word(out: &mut Vec<u8>, a: &Vec<u8>)
    requires
        a@.len() == 20,
    ensures
        final(out)@ == old(out)@ + addr_word(a@),
{
    let ghost base = out@;
    let mut i: usize = 0;
    while i < 12
        invariant
            i <= 12,
            out@ == base + zeros(i as nat),
        decreases 12 - i,
    {
        out.push(0u8);
        proof {
            assert((base + zeros(i as nat)).push(0u8) =~= base + zeros((i + 1) as nat));
        }
        i = i + 1;
    }
    let mut j: usize = 0;
    while j < 20
        invariant
            j <= 20,
            a@.len() == 20,
            out@ == base + zeros(12) + a@.take(j as int),
        decreases 20 - j,
    {
        out.push(a[j]);
        proof {
            assert((base + zeros(12) + a@.take(j as int)).push(a@[j as int])
                =~= base + zeros(12) + a@.take(j + 1 as int));
        }
        j = j + 1;
    }
    proof {
        assert(a@.take(20) =~= a@);
        assert(base + zeros(12) + a@ =~= base + addr_word(a@));
    }
}

/// Appends a dynamic byte string: length word, payload, zero padding.
pub fn push_bytes_enc(out: &mut Vec<u8>, data: &Vec<u8>)
    ensures
        final(out)@ == old(out)@ + bytes_enc(data@),
{
    let ghost base = out@;
    push_word_u64(out, data.len() as u64);
    let ghost mid = out@;
    let mut i: usize = 0;
    while i < data.len()
        invariant
            i <= data@.len(),
            out@ == mid + data@.take(i as int),
        decreases data.len() - i,
    {
        out.push(data[i]);
        proof {
            assert((mid + data@.take(i as int)).push(data@[i as int])
                =~= mid + data@.take(i + 1 as int));
        }
        i = i + 1;
    }
    proof {
        assert(data@.take(data@.len() as int) =~= data@);
    }
    let ghost full = out@;
    let pad: usize = (32 - (data.len() % 32)) % 32;
    let mut k: usize = 0;
    while k < pad
        invariant
            k <= pad,
            out@ == full + zeros(k as nat),
        decreases pad - k,
    {
        out.push(0u8);
        proof {
            assert((full + zeros(k as nat)).push(0u8) =~= full + zeros((k + 1) as nat));
        }
        k = k + 1;
    }
    proof {
        assert(pad == pad_of(data@.len()));
        assert(out@ =~= base + bytes_enc(data@));
    }
}

/// Reads the word at `off` as a 64-bit value; `None` if a high byte is set.
pub fn read_word_u64(b: &Vec<u8>, off: usize) -> (r: Option<u64>)
    requires
        off + 32 <= b@.len(),
    ensures
        r == parse_u64_word(b@.subrange(off as int, off as int + 32)),
{
    let n: usize = b.len();
    let ghost w = b@.subrange(off as int, off as int + 32);
    let mut i: usize = 0;
    while i < 24
        invariant
            i <= 24,
            n == b@.len(),
            off + 32 <= n,
            w == b@.subrange(off as int, off as int + 32),
            forall|k: int| 0 <= k < i ==> w[k] == 0u8,
        decreases 24 - i,
    {
        if b[off + i] != 0 {
            proof {
                assert(w[i as int] == b@[off + i]);
                assert(w.take(24) != zeros(24)) by {
                    assert(w.take(24)[i as int] != zeros(24)[i as int]);
                }
            }
            return None;
        }
        proof {
            assert(w[i as int] == b@[off + i]);
        }
        i = i + 1;
    }
    proof {
        assert(w.take(24) =~= zeros(24));
    }
    let x: u64 = ((b[off + 24] as u64) << 56) | ((b[off + 25] as u64) << 48)
        | ((b[off + 26] as u64) << 40) | ((b[off + 27] as u64) << 32)
        | ((b[off + 28] as u64) << 24) | ((b[off + 29] as u64) << 16)
        | ((b[off + 30] as u64) << 8) | (b[off + 31] as u64);
    proof {
        let t = w.skip(24);
        assert(t[0] == b@[off + 24]);
        assert(t[1] == b@[off + 25]);
        assert(t[2] == b@[off + 26]);
        assert(t[3] == b@[off + 27]);
        assert(t[4] == b@[off + 28]);
        assert(t[5] == b@[off + 29]);
        assert(t[6] == b@[off + 30]);
        assert(t[7] == b@[off + 31]);
        assert(x == u64_of_be(t));
    }
    Some(x)
}

/// Reads the word at `off` as an address; `None` if a high byte is set.
pub fn read_addr_word(b: &Vec<u8>, off: usize) -> (r: Option<Vec<u8>>)
    requires
        off + 32 <= b@.len(),
    ensures
        match r {
            Some(a) => parse_addr_word(b@.subrange(off as int, off as int + 32)) == Some(a@)
                && a@.len() == 20,
            None => parse_addr_word(b@.subrange(off as int, off as int + 32)) is None,
        },
{
    let n: usize = b.len();
    let ghost w = b@.subrange(off as int, off as int + 32);
    let mut i: usize = 0;
    while i < 12
        invariant
            i <= 12,
            n == b@.len(),
            off + 32 <= n,
            w == b@.subrange(off as int, off as int + 32),
            forall|k: int| 0 <= k < i ==> w[k] == 0u8,
        decreases 12 - i,
    {
        if b[off + i] != 0 {
            proof {
                assert(w[i as int] == b@[off + i]);
                assert(w.take(12) != zeros(12)) by {
                    assert(w.take(12)[i as int] != zeros(12)[i as int]);
                }
            }
            return None;
        }
        proof {
            assert(w[i as int] == b@[off + i]);
        }
        i = i + 1;
    }
    proof {
        assert(w.take(12) =~= zeros(12));
    }
    let mut a: Vec<u8> = Vec::new();
    let mut j: usize = 0;
    while j < 20
        invariant
            j <= 20,
            n == b@.len(),
            off + 32 <= n,
            w == b@.subrange(off as int, off as int + 32),
            a@ == w.skip(12).take(j as int),
        decreases 20 - j,
    {
        a.push(b[off + 12 + j]);
        proof {
            assert(w.skip(12)[j as int] == b@[off + 12 + j]);
            assert(w.skip(12).take(j as int).push(w.skip(12)[j as int])
                =~= w.skip(12).take(j + 1 as int));
        }
        j = j + 1;
    }
    proof {
        assert(w.skip(12).take(20) =~= w.skip(12));
    }
    Some(a)
}

/// Reads the dynamic byte string whose length word sits at `off` and whose
/// padded payload must end exactly at the end of `b`.
pub fn read_bytes_at(b: &Vec<u8>, off: usize) -> (r: Option<Vec<u8>>)
    requires
        off + 32 <= b@.len(),
    ensures
        match r {
            Some(d) => parse_bytes_at(b@, off as int) == Some(d@),
            None => parse_bytes_at(b@, off as int) is None,
        },
{
    let l64 = match read_word_u64(b, off) {
        Some(l) => l,
        None => {
            return None;
        },
    };
    let n: usize = b.len();
    let avail: usize = n - (off + 32);
    if l64 > avail as u64 {
        return None;
    }
    let l: usize = l64 as usize;
    let pad: usize = (32 - (l % 32)) % 32;
    proof {
        assert(pad == pad_of(l as nat));
    }
    if avail - l != pad {
        return None;
    }
    let mut k: usize = 0;
    while k < pad
        invariant
            k <= pad,
            n == b@.len(),
            off + 32 + l + pad == n,
            parse_u64_word(b@.subrange(off as int, off as int + 32)) == Some(l as u64),
            pad == pad_of(l as nat),
            forall|t: int| 0 <= t < k ==> #[trigger] b@[off + 32 + l + t] == 0u8,
        decreases pad - k,
    {
        if b[off + 32 + l + k] != 0 {
            proof {
                assert(b@.skip(off as int + 32 + l as int) != zeros(pad as nat)) by {
                    assert(b@.skip(off as int + 32 + l as int)[k as int]
                        != zeros(pad as nat)[k as int]);
                }
            }
            return None;
        }
        k = k + 1;
    }
    proof {
        assert forall|t: int| 0 <= t < pad
            implies #[trigger] b@.skip(off as int + 32 + l as int)[t] == 0u8 by {
            assert(b@[off + 32 + l + t] == 0u8);
        }
        assert(b@.skip(off as int + 32 + l as int) =~= zeros(pad as nat));
    }
    let mut d: Vec<u8> = Vec::new();
    let mut j: usize = 0;
    while j < l
        invariant
            j <= l,
            n == b@.len(),
            off + 32 + l + pad == n,
            parse_u64_word(b@.subrange(off as int, off as int + 32)) == Some(l as u64),
            pad == pad_of(l as nat),
            b@.skip(off as int + 32 + l as int) == zeros(pad as nat),
            d@ == b@.subrange(off as int + 32, off as int + 32 + j as int),
        decreases l - j,
    {
        d.push(b[off + 32 + j]);
        proof {
            assert(b@.subrange(off as int + 32, off as int + 32 + j as int).push(
                b@[off as int + 32 + j as int])
                =~= b@.subrange(off as int + 32, off as int + 32 + (j + 1) as int));
        }
        j = j + 1;
    }
    Some(d)
}

} // verus!
