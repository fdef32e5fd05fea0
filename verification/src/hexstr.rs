//! Hexadecimal text for ledger identifiers: attestation uids (32 bytes),
//! addresses (20 bytes) and opaque payloads all travel as `0x`-prefixed hex
//! strings. Parsing accepts upper and lower case with an optional `0x`
//! prefix; rendering always produces the lower-case `0x` form.

use vstd::prelude::*;

verus! {

/// True for the sixteen digits, in either case.
pub open spec fn is_hex_digit(c: char) -> bool {
    let u = c as u32;
    (48 <= u && u <= 57) || (97 <= u && u <= 102) || (65 <= u && u <= 70)
}

/// The numeric value of a hex digit (0 on a non-digit).
pub open spec fn hex_digit_val(c: char) -> u8
    recommends
        is_hex_digit(c),
{
    let u = c as u32;
    if 48 <= u && u <= 57 {
        (u - 48) as u8
    } else if 97 <= u && u <= 102 {
        (u - 87) as u8
    } else if 65 <= u && u <= 70 {
        (u - 55) as u8
    } else {
        0
    }
}

/// The lower-case digit for a nibble.
pub open spec fn hex_char_of(n: u8) -> char
    recommends
        n < 16,
{
    if n == 0 { '0' }
    else if n == 1 { '1' }
    else if n == 2 { '2' }
    else if n == 3 { '3' }
    else if n == 4 { '4' }
    else if n == 5 { '5' }
    else if n == 6 { '6' }
    else if n == 7 { '7' }
    else if n == 8 { '8' }
    else if n == 9 { '9' }
    else if n == 10 { 'a' }
    else if n == 11 { 'b' }
    else if n == 12 { 'c' }
    else if n == 13 { 'd' }
    else if n == 14 { 'e' }
    else { 'f' }
}

pub open spec fn all_hex(s: Seq<char>) -> bool {
    forall|i: int| 0 <= i < s.len() ==> is_hex_digit(#[trigger] s[i])
}

/// The two lower-case digits of one byte.
pub open spec fn hex_of_byte(b: u8) -> Seq<char> {
    seq![hex_char_of(b / 16), hex_char_of(b % 16)]
}

/// Lower-case hex text of a byte string, without prefix.
pub open spec fn hex_of_bytes(bs: Seq<u8>) -> Seq<char>
    decreases bs.len(),
{
    if bs.len() == 0 {
        Seq::empty()
    } else {
        hex_of_byte(bs[0]) + hex_of_bytes(bs.drop_first())
    }
}

/// The bytes denoted by hex text (digit pairs, case-insensitive).
pub open spec fn bytes_of_hex(s: Seq<char>) -> Seq<u8>
    recommends
        s.len() % 2 == 0,
    decreases s.len(),
{
    if s.len() < 2 {
        Seq::empty()
    } else {
        seq![(hex_digit_val(s[0]) * 16 + hex_digit_val(s[1])) as u8]
            + bytes_of_hex(s.skip(2))
    }
}

/// Hex text with the `0x` prefix removed, if present.
pub open spec fn hex_body(s: Seq<char>) -> Seq<char> {
    if s.len() >= 2 && s[0] == '0' && s[1] == 'x' {
        s.skip(2)
    } else {
        s
    }
}

/// A well-formed hex string for exactly `n` bytes, prefix optional.
pub open spec fn is_fixed_hex(s: Seq<char>, n: nat) -> bool {
    hex_body(s).len() == 2 * n && all_hex(hex_body(s))
}

/// The canonical rendering of a byte string: `0x` plus lower-case digits.
pub open spec fn hex_str_of(bs: Seq<u8>) -> Seq<char> {
    seq!['0', 'x'] + hex_of_bytes(bs)
}

pub proof fn lemma_hex_of_bytes_len(bs: Seq<u8>)
    ensures
        hex_of_bytes(bs).len() == 2 * bs.len(),
    decreases bs.len(),
{
    if bs.len() > 0 {
        lemma_hex_of_bytes_len(bs.drop_first());
    }
}

pub proof fn lemma_hex_of_bytes_push(bs: Seq<u8>, b: u8)
    ensures
        hex_of_bytes(bs.push(b)) == hex_of_bytes(bs) + hex_of_byte(b),
    decreases bs.len(),
{
    let t = bs.push(b);
    if bs.len() == 0 {
        assert(t[0] == b);
        assert(t.drop_first() =~= Seq::<u8>::empty());
        assert(hex_of_bytes(t) == hex_of_byte(b) + hex_of_bytes(Seq::<u8>::empty()));
        assert(hex_of_byte(b) + hex_of_bytes(Seq::<u8>::empty()) =~= hex_of_byte(b));
        assert(hex_of_bytes(bs) + hex_of_byte(b) =~= hex_of_byte(b));
    } else {
        assert(t[0] == bs[0]);
        assert(t.drop_first() =~= bs.drop_first().push(b));
        lemma_hex_of_bytes_push(bs.drop_first(), b);
        assert(hex_of_bytes(t)
            == hex_of_byte(bs[0]) + (hex_of_bytes(bs.drop_first()) + hex_of_byte(b)));
        assert(hex_of_byte(bs[0]) + (hex_of_bytes(bs.drop_first()) + hex_of_byte(b))
            =~= hex_of_bytes(bs) + hex_of_byte(b));
    }
}

pub proof fn lemma_bytes_of_hex_append_pair(s: Seq<char>, c1: char, c2: char)
    requires
        s.len() % 2 == 0,
    ensures
        bytes_of_hex(s.push(c1).push(c2))
            == bytes_of_hex(s).push((hex_digit_val(c1) * 16 + hex_digit_val(c2)) as u8),
    decreases s.len(),
{
    let t = s.push(c1).push(c2);
    let v = (hex_digit_val(c1) * 16 + hex_digit_val(c2)) as u8;
    if s.len() == 0 {
        assert(t.len() == 2);
        assert(s.push(c1)[0] == c1);
        assert(t[0] == c1);
        assert(t[1] == c2);
        assert(t.skip(2) =~= Seq::<char>::empty());
        assert(bytes_of_hex(t) == seq![v] + bytes_of_hex(Seq::<char>::empty()));
        assert(seq![v] + bytes_of_hex(Seq::<char>::empty()) =~= seq![v]);
        assert(bytes_of_hex(s).push(v) =~= seq![v]);
    } else {
        assert(t.skip(2) =~= s.skip(2).push(c1).push(c2));
        lemma_bytes_of_hex_append_pair(s.skip(2), c1, c2);
        assert(s.push(c1)[0] == s[0]);
        assert(t[0] == s[0]);
        assert(s.len() >= 2);
        assert(s.push(c1)[1] == s[1]);
        assert(t[1] == s[1]);
        let w = (hex_digit_val(s[0]) * 16 + hex_digit_val(s[1])) as u8;
        assert(bytes_of_hex(t) == seq![w] + bytes_of_hex(t.skip(2)));
        assert(bytes_of_hex(t.skip(2)) == bytes_of_hex(s.skip(2)).push(v));
        assert(bytes_of_hex(s) == seq![w] + bytes_of_hex(s.skip(2)));
        assert(seq![w] + bytes_of_hex(s.skip(2)).push(v)
            =~= (seq![w] + bytes_of_hex(s.skip(2))).push(v));
    }
}

/// Round trip: parsing the rendering of a byte string gives it back.
pub proof fn lemma_bytes_of_hex_of_bytes(bs: Seq<u8>)
    ensures
        hex_of_bytes(bs).len() % 2 == 0,
        all_hex(hex_of_bytes(bs)),
        bytes_of_hex(hex_of_bytes(bs)) == bs,
    decreases bs.len(),
{
    lemma_hex_of_bytes_len(bs);
    if bs.len() == 0 {
        assert(bytes_of_hex(hex_of_bytes(bs)) =~= bs);
    } else {
        lemma_bytes_of_hex_of_bytes(bs.drop_first());
        let s = hex_of_bytes(bs);
        assert(s[0] == hex_char_of(bs[0] / 16));
        assert(s[1] == hex_char_of(bs[0] % 16));
        assert forall|i: int| 0 <= i < s.len() implies is_hex_digit(#[trigger] s[i]) by {
            lemma_hex_of_bytes_len(bs.drop_first());
            if i >= 2 {
                assert(s[i] == hex_of_bytes(bs.drop_first())[i - 2]);
            }
        }
        assert(s.skip(2) =~= hex_of_bytes(bs.drop_first()));
        assert(hex_digit_val(hex_char_of(bs[0] / 16)) == bs[0] / 16);
        assert(hex_digit_val(hex_char_of(bs[0] % 16)) == bs[0] % 16);
        assert((hex_digit_val(s[0]) * 16 + hex_digit_val(s[1])) as u8 == bs[0]);
        assert(bytes_of_hex(s) =~= bs);
    }
}

/// The numeric value of one hex digit character, or `None`.
pub fn hex_val(c: char) -> (r: Option<u8>)
    ensures
        r is Some <==> is_hex_digit(c),
        r matches Some(v) ==> v == hex_digit_val(c) && v < 16,
{
    let u = c as u32;
    if 48 <= u && u <= 57 {
        Some((u - 48) as u8)
    } else if 97 <= u && u <= 102 {
        Some((u - 87) as u8)
    } else if 65 <= u && u <= 70 {
        Some((u - 55) as u8)
    } else {
        None
    }
}

/// The lower-case digit for a nibble, as a one-character string slice.
pub(crate) fn hex_char_str(n: u8) -> (r: &'static str)
    requires
        n < 16,
    ensures
        r@ == seq![hex_char_of(n)],
{
    proof {
        reveal_strlit("0");
        reveal_strlit("1");
        reveal_strlit("2");
        reveal_strlit("3");
        reveal_strlit("4");
        reveal_strlit("5");
        reveal_strlit("6");
        reveal_strlit("7");
        reveal_strlit("8");
        reveal_strlit("9");
        reveal_strlit("a");
        reveal_strlit("b");
        reveal_strlit("c");
        reveal_strlit("d");
        reveal_strlit("e");
        reveal_strlit("f");
    }
    let r = if n == 0 { "0" }
    else if n == 1 { "1" }
    else if n == 2 { "2" }
    else if n == 3 { "3" }
    else if n == 4 { "4" }
    else if n == 5 { "5" }
    else if n == 6 { "6" }
    else if n == 7 { "7" }
    else if n == 8 { "8" }
    else if n == 9 { "9" }
    else if n == 10 { "a" }
    else if n == 11 { "b" }
    else if n == 12 { "c" }
    else if n == 13 { "d" }
    else if n == 14 { "e" }
    else { "f" };
    proof {
        assert(r@ =~= seq![hex_char_of(n)]);
    }
    r
}

/// Renders bytes as lower-case hex without a prefix.
pub fn hex_encode(bytes: &Vec<u8>) -> (r: String)
    ensures
        r@ == hex_of_bytes(bytes@),
{
    let mut out = String::new();
    let mut i: usize = 0;
    while i < bytes.len()
        invariant
            i <= bytes.len(),
            out@ == hex_of_bytes(bytes@.take(i as int)),
        decreases bytes.len() - i,
    {
        let b = bytes[i];
        out.append(hex_char_str(b / 16));
        out.append(hex_char_str(b % 16));
        proof {
            lemma_hex_of_bytes_push(bytes@.take(i as int), b);
            assert(bytes@.take(i as int).push(b) =~= bytes@.take(i + 1 as int));
            assert(out@ =~= hex_of_bytes(bytes@.take(i + 1 as int)));
        }
        i = i + 1;
    }
    proof {
        assert(bytes@.take(bytes@.len() as int) =~= bytes@);
    }
    out
}

/// Renders bytes in the canonical `0x` form.
pub fn hex_encode_prefixed(bytes: &Vec<u8>) -> (r: String)
    ensures
        r@ == hex_str_of(bytes@),
{
    proof {
        reveal_strlit("0x");
    }
    let mut out = String::from_str("0x");
    out.append(hex_encode(bytes).as_str());
    proof {
        assert(out@ =~= hex_str_of(bytes@));
    }
    out
}

/// Parses hex text with an optional `0x` prefix; `None` on odd length or a
/// stray character.
pub fn hex_decode(s: &str) -> (r: Option<Vec<u8>>)
    ensures
        r is Some <==> hex_body(s@).len() % 2 == 0 && all_hex(hex_body(s@)),
        r matches Some(v) ==> v@ == bytes_of_hex(hex_body(s@)),
{
    let n = s.unicode_len();
    let start: usize = if n >= 2 && s.get_char(0) == '0' && s.get_char(1) == 'x' {
        2
    } else {
        0
    };
    proof {
        assert(hex_body(s@) =~= s@.skip(start as int));
    }
    if (n - start) % 2 != 0 {
        return None;
    }
    let mut out: Vec<u8> = Vec::new();
    let mut i: usize = start;
    while i < n
        invariant
            start <= i <= n,
            n == s@.len(),
            hex_body(s@) == s@.skip(start as int),
            (i - start) % 2 == 0,
            (n - start) % 2 == 0,
            out@ == bytes_of_hex(s@.subrange(start as int, i as int)),
            all_hex(s@.subrange(start as int, i as int)),
        decreases n - i,
    {
        let c1 = s.get_char(i);
        let c2 = s.get_char(i + 1);
        let v1 = match hex_val(c1) {
            Some(v) => v,
            None => {
                proof {
                    assert(s@.skip(start as int)[i - start] == s@[i as int]);
                    assert(hex_body(s@)[i - start] == c1);
                    assert(!all_hex(hex_body(s@)));
                }
                return None;
            },
        };
        let v2 = match hex_val(c2) {
            Some(v) => v,
            None => {
                proof {
                    assert(s@.skip(start as int)[i + 1 - start] == s@[i + 1 as int]);
                    assert(hex_body(s@)[i + 1 - start] == c2);
                    assert(!all_hex(hex_body(s@)));
                }
                return None;
            },
        };
        out.push(v1 * 16 + v2);
        proof {
            let pre = s@.subrange(start as int, i as int);
            lemma_bytes_of_hex_append_pair(pre, c1, c2);
            assert(pre.push(c1).push(c2) =~= s@.subrange(start as int, i + 2 as int));
            assert forall|k: int| 0 <= k < i + 2 - start
                implies is_hex_digit(#[trigger] s@.subrange(start as int, i + 2 as int)[k]) by {
                if k < i - start {
                    assert(s@.subrange(start as int, i + 2 as int)[k] == pre[k]);
                }
            }
        }
        i = i + 2;
    }
    proof {
        assert(s@.subrange(start as int, n as int) =~= hex_body(s@));
    }
    Some(out)
}

/// Parses a fixed-width identifier (an address for `n == 20`, an attestation
/// uid for `n == 32`); `None` unless the text holds exactly `n` bytes of hex.
pub fn parse_fixed_hex(s: &str, n: usize) -> (r: Option<Vec<u8>>)
    requires
        n <= usize::MAX / 2,
    ensures
        r is Some <==> is_fixed_hex(s@, n as nat),
        r matches Some(v) ==> v@ == bytes_of_hex(hex_body(s@)) && v@.len() == n,
{
    match hex_decode(s) {
        Some(v) => {
            if v.len() == n {
                proof {
                    lemma_bytes_of_hex_len(hex_body(s@));
                }
                Some(v)
            } else {
                proof {
                    lemma_bytes_of_hex_len(hex_body(s@));
                }
                None
            }
        },
        None => None,
    }
}

/// A canonical identifier string: the `0x`-prefixed lower-case rendering of
/// its own bytes (what the library's encoders emit).
pub open spec fn canonical_hex(s: Seq<char>, n: nat) -> bool {
    is_fixed_hex(s, n) && s == hex_str_of(bytes_of_hex(hex_body(s)))
}

/// The canonical rendering of any byte string is itself canonical and parses
/// back to those bytes.
pub proof fn lemma_hex_str_of_canonical(bs: Seq<u8>)
    ensures
        hex_body(hex_str_of(bs)) == hex_of_bytes(bs),
        bytes_of_hex(hex_body(hex_str_of(bs))) == bs,
        canonical_hex(hex_str_of(bs), bs.len()),
    decreases bs.len(),
{
    let s = hex_str_of(bs);
    lemma_hex_of_bytes_len(bs);
    assert(s[0] == '0' && s[1] == 'x');
    assert(s.skip(2) =~= hex_of_bytes(bs));
    lemma_bytes_of_hex_of_bytes(bs);
    assert(s =~= hex_str_of(bytes_of_hex(hex_body(s))));
}

pub proof fn lemma_bytes_of_hex_len(s: Seq<char>)
    requires
        s.len() % 2 == 0,
    ensures
        bytes_of_hex(s).len() == s.len() / 2,
    decreases s.len(),
{
    if s.len() >= 2 {
        lemma_bytes_of_hex_len(s.skip(2));
    }
}

} // verus!
