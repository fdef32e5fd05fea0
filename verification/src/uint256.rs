//! 256-bit unsigned values and their decimal text. Token ids and amounts
//! range over the full 256-bit space, so they travel as decimal strings;
//! this module converts between those strings and the four 64-bit limbs
//! that the wire words hold.

use vstd::prelude::*;
use vstd::arithmetic::div_mod::{lemma_fundamental_div_mod, lemma_fundamental_div_mod_converse};

use crate::hexstr::hex_char_of;

verus! {

/// A 256-bit value as four 64-bit limbs, least significant first.
#[derive(Clone, Copy, Debug)]
pub struct U256 {
    pub l0: u64,
    pub l1: u64,
    pub l2: u64,
    pub l3: u64,
}

/// The number a limb quadruple denotes.
pub open spec fn u256_val(x: U256) -> nat {
    x.l0 as nat + x.l1 as nat * 0x10000000000000000
        + x.l2 as nat * 0x100000000000000000000000000000000
        + x.l3 as nat * 0x1000000000000000000000000000000000000000000000000
}

pub open spec fn pow10(n: nat) -> nat
    decreases n,
{
    if n == 0 {
        1
    } else {
        10 * pow10((n - 1) as nat)
    }
}

pub open spec fn is_dec_digit(c: char) -> bool {
    48 <= c as u32 && c as u32 <= 57
}

pub open spec fn dec_digit_val(c: char) -> nat
    recommends
        is_dec_digit(c),
{
    ((c as u32) - 48) as nat
}

pub open spec fn all_dec(s: Seq<char>) -> bool {
    forall|i: int| 0 <= i < s.len() ==> is_dec_digit(#[trigger] s[i])
}

/// The number a decimal string denotes.
pub open spec fn dec_val(s: Seq<char>) -> nat
    recommends
        all_dec(s),
    decreases s.len(),
{
    if s.len() == 0 {
        0
    } else {
        dec_val(s.drop_last()) * 10 + dec_digit_val(s.last())
    }
}

/// A canonical decimal string: nonempty, digits only, and no leading zero
/// (what `to_decimal` emits).
pub open spec fn is_canonical_dec(s: Seq<char>) -> bool {
    s.len() > 0 && all_dec(s) && (s.len() == 1 || s[0] != '0')
}

/// The value of a digit string read least-significant-digit first.
pub open spec fn lev(ds: Seq<u8>) -> nat
    decreases ds.len(),
{
    if ds.len() == 0 {
        0
    } else {
        ds[0] as nat + 10 * lev(ds.drop_first())
    }
}

/// The characters of a digit string, most significant digit first.
pub open spec fn chars_rev(ds: Seq<u8>) -> Seq<char>
    decreases ds.len(),
{
    if ds.len() == 0 {
        Seq::empty()
    } else {
        seq![hex_char_of(ds.last())] + chars_rev(ds.drop_last())
    }
}

/// The limb quadruple of a number below two to the 256th.
pub open spec fn u256_of(n: nat) -> U256 {
    let q1 = n / 0x10000000000000000;
    let q2 = q1 / 0x10000000000000000;
    let q3 = q2 / 0x10000000000000000;
    U256 {
        l0: (n % 0x10000000000000000) as u64,
        l1: (q1 % 0x10000000000000000) as u64,
        l2: (q2 % 0x10000000000000000) as u64,
        l3: (q3 % 0x10000000000000000) as u64,
    }
}

/// The limbs of a value are unique: rebuilding them from the number gives
/// the same quadruple back.
pub proof fn lemma_u256_of_val(x: U256)
    ensures
        u256_of(u256_val(x)) == x,
{
    let b: int = 0x10000000000000000;
    let n = u256_val(x) as int;
    let q1: int = x.l1 as int + x.l2 as int * b + x.l3 as int * (b * b);
    let q2: int = x.l2 as int + x.l3 as int * b;
    let q3: int = x.l3 as int;
    assert(b * b == 0x100000000000000000000000000000000int);
    assert(b * b * b == 0x1000000000000000000000000000000000000000000000000int);
    assert(n == q1 * b + x.l0 as int);
    lemma_fundamental_div_mod_converse(n, b, q1, x.l0 as int);
    assert(q1 == q2 * b + x.l1 as int);
    lemma_fundamental_div_mod_converse(q1, b, q2, x.l1 as int);
    assert(q2 == q3 * b + x.l2 as int);
    lemma_fundamental_div_mod_converse(q2, b, q3, x.l2 as int);
    vstd::arithmetic::div_mod::lemma_small_mod(x.l3 as nat, b as nat);
}

/// Rebuilding a number from its limbs gives the number back.
pub proof fn lemma_u256_val_of(n: nat)
    requires
        n < 0x10000000000000000000000000000000000000000000000000000000000000000,
    ensures
        u256_val(u256_of(n)) == n,
{
    let b: int = 0x10000000000000000;
    let ni = n as int;
    let q1 = ni / b;
    let q2 = q1 / b;
    let q3 = q2 / b;
    lemma_fundamental_div_mod(ni, b);
    lemma_fundamental_div_mod(q1, b);
    lemma_fundamental_div_mod(q2, b);
    vstd::arithmetic::div_mod::lemma_mod_bound(ni, b);
    vstd::arithmetic::div_mod::lemma_mod_bound(q1, b);
    vstd::arithmetic::div_mod::lemma_mod_bound(q2, b);
    vstd::arithmetic::div_mod::lemma_div_pos_is_pos(ni, b);
    vstd::arithmetic::div_mod::lemma_div_pos_is_pos(q1, b);
    vstd::arithmetic::div_mod::lemma_div_pos_is_pos(q2, b);
    assert(b * b == 0x100000000000000000000000000000000int);
    assert(b * b * b == 0x1000000000000000000000000000000000000000000000000int);
    assert(q3 < b) by {
        if q3 >= b {
            assert(q2 >= b * q3);
            assert(b * q3 >= b * b);
            assert(q1 >= b * q2);
            assert(b * q2 >= b * (b * b));
            assert(ni >= b * q1);
            assert(b * q1 >= b * (b * (b * b)));
        }
    }
    vstd::arithmetic::div_mod::lemma_mod_bound(q3, b);
    vstd::arithmetic::div_mod::lemma_small_mod(q3 as nat, b as nat);
    assert(ni == (ni % b) + (q1 % b) * b + (q2 % b) * (b * b) + q3 * (b * b * b));
}

/// Every limb quadruple denotes a value below two to the 256th.
pub proof fn lemma_u256_val_bound(x: U256)
    ensures
        u256_val(x) < 0x10000000000000000000000000000000000000000000000000000000000000000,
{
}

/// Multiplies by ten and adds one digit in place; reports `false` exactly
/// when the result would not fit in 256 bits, and the stored limbs are
/// meaningful only when it reports `true`.
pub fn mul10_add(x: &mut U256, d: u8) -> (ok: bool)
    requires
        d < 10,
    ensures
        ok ==> u256_val(*final(x)) == u256_val(*old(x)) * 10 + d,
        !ok ==> u256_val(*old(x)) * 10 + d
            >= 0x10000000000000000000000000000000000000000000000000000000000000000,
{
    let t0: u128 = (x.l0 as u128) * 10 + (d as u128);
    let n0: u64 = (t0 % 0x10000000000000000) as u64;
    let c0: u64 = (t0 / 0x10000000000000000) as u64;
    let t1: u128 = (x.l1 as u128) * 10 + (c0 as u128);
    let n1: u64 = (t1 % 0x10000000000000000) as u64;
    let c1: u64 = (t1 / 0x10000000000000000) as u64;
    let t2: u128 = (x.l2 as u128) * 10 + (c1 as u128);
    let n2: u64 = (t2 % 0x10000000000000000) as u64;
    let c2: u64 = (t2 / 0x10000000000000000) as u64;
    let t3: u128 = (x.l3 as u128) * 10 + (c2 as u128);
    let n3: u64 = (t3 % 0x10000000000000000) as u64;
    let c3: u64 = (t3 / 0x10000000000000000) as u64;
    proof {
        lemma_fundamental_div_mod(t0 as int, 0x10000000000000000);
        lemma_fundamental_div_mod(t1 as int, 0x10000000000000000);
        lemma_fundamental_div_mod(t2 as int, 0x10000000000000000);
        lemma_fundamental_div_mod(t3 as int, 0x10000000000000000);
    }
    x.l0 = n0;
    x.l1 = n1;
    x.l2 = n2;
    x.l3 = n3;
    c3 == 0
}

/// Divides by ten in place and returns the remainder.
pub fn div10(x: &mut U256) -> (rem: u8)
    ensures
        u256_val(*final(x)) == u256_val(*old(x)) / 10,
        rem == u256_val(*old(x)) % 10,
        rem < 10,
{
    let r3: u64 = x.l3;
    let q3: u64 = r3 / 10;
    let m3: u64 = r3 % 10;
    let r2: u128 = (m3 as u128) * 0x10000000000000000 + (x.l2 as u128);
    let q2: u64 = (r2 / 10) as u64;
    let m2: u64 = (r2 % 10) as u64;
    let r1: u128 = (m2 as u128) * 0x10000000000000000 + (x.l1 as u128);
    let q1: u64 = (r1 / 10) as u64;
    let m1: u64 = (r1 % 10) as u64;
    let r0: u128 = (m1 as u128) * 0x10000000000000000 + (x.l0 as u128);
    let q0: u64 = (r0 / 10) as u64;
    let m0: u64 = (r0 % 10) as u64;
    proof {
        lemma_fundamental_div_mod(r3 as int, 10);
        lemma_fundamental_div_mod(r2 as int, 10);
        lemma_fundamental_div_mod(r1 as int, 10);
        lemma_fundamental_div_mod(r0 as int, 10);
        let old_val = u256_val(*old(x));
        let new_val = q0 as nat + q1 as nat * 0x10000000000000000
            + q2 as nat * 0x100000000000000000000000000000000
            + q3 as nat * 0x1000000000000000000000000000000000000000000000000;
        assert(old_val == 10 * new_val + m0);
        lemma_fundamental_div_mod_converse(old_val as int, 10, new_val as int, m0 as int);
    }
    x.l3 = q3;
    x.l2 = q2;
    x.l1 = q1;
    x.l0 = q0;
    m0 as u8
}

/// A longer prefix of a digit string never denotes a smaller number.
pub proof fn lemma_dec_val_take_monotone(s: Seq<char>, i: int, j: int)
    requires
        0 <= i <= j <= s.len(),
    ensures
        dec_val(s.take(j)) >= dec_val(s.take(i)),
    decreases j - i,
{
    if j > i {
        lemma_dec_val_take_monotone(s, i, j - 1);
        assert(s.take(j).drop_last() =~= s.take(j - 1));
    }
}

/// Parses a decimal string into a 256-bit value; `None` exactly on an empty
/// string, a stray character, or a value past 256 bits.
pub fn from_decimal(s: &str) -> (r: Option<U256>)
    ensures
        r is Some <==> s@.len() > 0 && all_dec(s@) && dec_val(s@)
            < 0x10000000000000000000000000000000000000000000000000000000000000000,
        r matches Some(x) ==> u256_val(x) == dec_val(s@),
{
    let n = s.unicode_len();
    if n == 0 {
        return None;
    }
    let mut x = U256 { l0: 0, l1: 0, l2: 0, l3: 0 };
    let mut i: usize = 0;
    while i < n
        invariant
            i <= n,
            n == s@.len(),
            all_dec(s@.take(i as int)),
            u256_val(x) == dec_val(s@.take(i as int)),
        decreases n - i,
    {
        let c = s.get_char(i);
        let u = c as u32;
        if !(48 <= u && u <= 57) {
            proof {
                assert(!all_dec(s@)) by {
                    assert(s@[i as int] == c);
                }
            }
            return None;
        }
        let d: u8 = (u - 48) as u8;
        let ghost pre = s@.take(i as int);
        let ok = mul10_add(&mut x, d);
        proof {
            assert(s@.take(i + 1 as int).drop_last() =~= pre);
            assert(s@.take(i + 1 as int).last() == s@[i as int]);
            assert forall|k: int| 0 <= k < i + 1
                implies is_dec_digit(#[trigger] s@.take(i + 1 as int)[k]) by {
                if k < i {
                    assert(s@.take(i + 1 as int)[k] == pre[k]);
                }
            }
            assert(dec_val(s@.take(i + 1 as int)) == dec_val(pre) * 10 + d);
        }
        if !ok {
            proof {
                lemma_dec_val_take_monotone(s@, i + 1, n as int);
                assert(s@.take(n as int) =~= s@);
            }
            return None;
        }
        i = i + 1;
    }
    proof {
        assert(s@.take(n as int) =~= s@);
        lemma_u256_val_bound(x);
    }
    Some(x)
}

/// Appending a digit raises the place value of nothing already collected.
pub proof fn lemma_lev_push(ds: Seq<u8>, d: u8)
    ensures
        lev(ds.push(d)) == lev(ds) + d * pow10(ds.len()),
    decreases ds.len(),
{
    if ds.len() == 0 {
        assert(ds.push(d)[0] == d);
        assert(ds.push(d).drop_first() =~= Seq::<u8>::empty());
        assert(pow10(0) == 1);
        assert(lev(ds.push(d)) == d as nat + 10 * lev(Seq::<u8>::empty()));
        assert(d as nat * 1 == d as nat) by (nonlinear_arith);
    } else {
        assert(ds.push(d)[0] == ds[0]);
        assert(ds.push(d).drop_first() =~= ds.drop_first().push(d));
        lemma_lev_push(ds.drop_first(), d);
        assert(10 * (lev(ds.drop_first()) + d * pow10(ds.drop_first().len()))
            == 10 * lev(ds.drop_first()) + 10 * (d as nat * pow10(ds.drop_first().len())))
            by (nonlinear_arith);
        assert(10 * (d as nat * pow10(ds.drop_first().len()))
            == d as nat * (10 * pow10(ds.drop_first().len()))) by (nonlinear_arith);
        assert(pow10(ds.len()) == 10 * pow10(ds.drop_first().len()));
        assert(lev(ds.push(d)) == ds[0] as nat + 10 * lev(ds.drop_first().push(d)));
        assert(lev(ds.push(d)) == ds[0] as nat + 10 * lev(ds.drop_first())
            + d as nat * pow10(ds.len()));
    }
}

/// Reversing a digit string and reading it as text preserves its value.
pub proof fn lemma_chars_rev_cons(ds: Seq<u8>)
    requires
        ds.len() > 0,
    ensures
        chars_rev(ds) == chars_rev(ds.drop_first()) + seq![hex_char_of(ds[0])],
    decreases ds.len(),
{
    if ds.len() == 1 {
        assert(ds.drop_last() =~= Seq::<u8>::empty());
        assert(ds.drop_first() =~= Seq::<u8>::empty());
        assert(ds.last() == ds[0]);
        assert(chars_rev(ds) =~= chars_rev(ds.drop_first()) + seq![hex_char_of(ds[0])]);
    } else {
        lemma_chars_rev_cons(ds.drop_last());
        assert(ds.drop_last()[0] == ds[0]);
        assert(ds.drop_last().drop_first() =~= ds.drop_first().drop_last());
        assert(ds.drop_first().last() == ds.last());
        assert(chars_rev(ds)
            == seq![hex_char_of(ds.last())] + (chars_rev(ds.drop_first().drop_last())
                + seq![hex_char_of(ds[0])]));
        assert(chars_rev(ds.drop_first())
            == seq![hex_char_of(ds.last())] + chars_rev(ds.drop_first().drop_last()));
        assert(seq![hex_char_of(ds.last())] + (chars_rev(ds.drop_first().drop_last())
                + seq![hex_char_of(ds[0])])
            =~= chars_rev(ds.drop_first()) + seq![hex_char_of(ds[0])]);
    }
}

pub proof fn lemma_dec_val_chars_rev(ds: Seq<u8>)
    requires
        forall|i: int| 0 <= i < ds.len() ==> #[trigger] ds[i] < 10,
    ensures
        chars_rev(ds).len() == ds.len(),
        all_dec(chars_rev(ds)),
        dec_val(chars_rev(ds)) == lev(ds),
    decreases ds.len(),
{
    if ds.len() > 0 {
        assert forall|i: int| 0 <= i < ds.drop_first().len()
            implies #[trigger] ds.drop_first()[i] < 10 by {
            assert(ds.drop_first()[i] == ds[i + 1]);
        }
        lemma_dec_val_chars_rev(ds.drop_first());
        lemma_chars_rev_cons(ds);
        let t = chars_rev(ds.drop_first());
        let c = hex_char_of(ds[0]);
        assert((t + seq![c]).drop_last() =~= t);
        assert((t + seq![c]).last() == c);
        assert(ds[0] < 10);
        assert(is_dec_digit(c) && dec_digit_val(c) == ds[0]);
        assert(dec_val(chars_rev(ds)) == dec_val(t) * 10 + ds[0]);
        assert forall|i: int| 0 <= i < chars_rev(ds).len()
            implies is_dec_digit(#[trigger] chars_rev(ds)[i]) by {
            if i < t.len() {
                assert(chars_rev(ds)[i] == t[i]);
            } else {
                assert(chars_rev(ds)[i] == c);
            }
        }
    }
}

/// One division step keeps the place-value accounting balanced.
proof fn lemma_to_decimal_step(val: nat, k: nat)
    ensures
        (val / 10) * pow10(k + 1) + (val % 10) * pow10(k) == val * pow10(k),
{
    lemma_fundamental_div_mod(val as int, 10);
    assert(val == 10 * (val / 10) + val % 10);
    assert(pow10(k + 1) == 10 * pow10(k));
    assert((val / 10) * (10 * pow10(k)) == (10 * (val / 10)) * pow10(k)) by (nonlinear_arith);
    assert((10 * (val / 10)) * pow10(k) + (val % 10) * pow10(k)
        == (10 * (val / 10) + val % 10) * pow10(k)) by (nonlinear_arith);
}

/// Renders a 256-bit value as its canonical decimal string.
#[verifier::rlimit(50)]
pub fn to_decimal(x: U256) -> (r: String)
    ensures
        is_canonical_dec(r@),
        dec_val(r@) == u256_val(x),
{
    let mut cur = x;
    let mut digits: Vec<u8> = Vec::new();
    proof {
        assert(pow10(0) == 1);
        assert(digits@ =~= Seq::<u8>::empty());
        assert(u256_val(cur) * 1 == u256_val(cur)) by (nonlinear_arith);
    }
    while !(cur.l0 == 0 && cur.l1 == 0 && cur.l2 == 0 && cur.l3 == 0)
        invariant
            u256_val(x) == u256_val(cur) * pow10(digits@.len()) + lev(digits@),
            forall|i: int| 0 <= i < digits@.len() ==> #[trigger] digits@[i] < 10,
            digits@.len() > 0 && u256_val(cur) == 0 ==> digits@.last() >= 1,
        decreases u256_val(cur),
    {
        let ghost prev = u256_val(cur);
        let ghost olddigits = digits@;
        let ghost k = digits@.len();
        let d = div10(&mut cur);
        digits.push(d);
        proof {
            assert(prev > 0);
            vstd::arithmetic::div_mod::lemma_div_decreases(prev as int, 10);
            lemma_lev_push(olddigits, d);
            assert(digits@ == olddigits.push(d));
            lemma_to_decimal_step(prev, k);
            assert(u256_val(x) == u256_val(cur) * pow10(k + 1) + lev(digits@));
            if u256_val(cur) == 0 {
                assert(digits@.last() == d);
                assert(prev <= 9) by {
                    lemma_fundamental_div_mod(prev as int, 10);
                    if prev >= 10 {
                        assert(prev / 10 >= 1) by {
                            lemma_fundamental_div_mod_converse(prev as int, 10,
                                (prev / 10) as int, (prev % 10) as int);
                        }
                    }
                }
                assert(d >= 1);
            }
        }
    }
    proof {
        assert(u256_val(cur) == 0);
        assert(u256_val(cur) * pow10(digits@.len()) == 0) by (nonlinear_arith)
            requires u256_val(cur) == 0;
        assert(u256_val(x) == lev(digits@));
    }
    if digits.len() == 0 {
        proof {
            reveal_strlit("0");
        }
        let zero = String::from_str("0");
        proof {
            assert(zero@.len() == 1);
            assert(zero@[0] == '0');
            assert(zero@.drop_last() =~= Seq::<char>::empty());
            assert(zero@.last() == '0');
            assert(dec_digit_val('0') == 0);
            assert(dec_val(zero@) == dec_val(Seq::<char>::empty()) * 10 + dec_digit_val('0'));
            assert(dec_val(zero@) == 0);
            assert(u256_val(x) == 0);
        }
        return zero;
    }
    let mut out = String::new();
    let mut k = digits.len();
    while k > 0
        invariant
            k <= digits@.len(),
            forall|i: int| 0 <= i < digits@.len() ==> #[trigger] digits@[i] < 10,
            out@ == chars_rev(digits@.skip(k as int)),
        decreases k,
    {
        k = k - 1;
        out.append(crate::hexstr::hex_char_str(digits[k]));
        proof {
            lemma_chars_rev_cons(digits@.skip(k as int));
            assert(digits@.skip(k as int).drop_first() =~= digits@.skip(k + 1 as int));
            assert(digits@.skip(k as int)[0] == digits@[k as int]);
            assert(chars_rev(digits@.skip(k + 1 as int)) + seq![hex_char_of(digits@[k as int])]
                =~= out@);
        }
    }
    proof {
        assert(digits@.skip(0) =~= digits@);
        lemma_dec_val_chars_rev(digits@);
        assert(out@.len() == digits@.len());
        lemma_chars_rev_cons(digits@);
        assert(out@[0] == hex_char_of(digits@.last())) by {
            assert(chars_rev(digits@)
                == seq![hex_char_of(digits@.last())] + chars_rev(digits@.drop_last()));
        }
        assert(digits@.last() >= 1);
        assert(out@[0] != '0');
    }
    out
}

/// Two canonical decimal strings with the same value are the same string.
pub proof fn lemma_canonical_dec_injective(a: Seq<char>, b: Seq<char>)
    requires
        is_canonical_dec(a),
        is_canonical_dec(b),
        dec_val(a) == dec_val(b),
    ensures
        a == b,
    decreases a.len(),
{
    if a.len() < b.len() {
        lemma_canonical_lengths_agree(a, b);
    } else if b.len() < a.len() {
        lemma_canonical_lengths_agree(b, a);
    } else if a.len() == 1 {
        assert(a.drop_last() =~= Seq::<char>::empty());
        assert(b.drop_last() =~= Seq::<char>::empty());
        assert(a.last() == a[0]);
        assert(b.last() == b[0]);
        assert(dec_val(Seq::<char>::empty()) == 0);
        assert(dec_val(a) == dec_val(a.drop_last()) * 10 + dec_digit_val(a.last()));
        assert(dec_val(b) == dec_val(b.drop_last()) * 10 + dec_digit_val(b.last()));
        assert(dec_val(a) == dec_digit_val(a[0]));
        assert(dec_val(b) == dec_digit_val(b[0]));
        assert(a[0] as u32 == b[0] as u32);
        vstd::utf8::char_u32_cast(a[0], a[0] as u32);
        vstd::utf8::char_u32_cast(b[0], b[0] as u32);
        assert(a =~= b);
    } else {
        let va = dec_val(a);
        lemma_fundamental_div_mod_converse(va as int, 10, dec_val(a.drop_last()) as int,
            dec_digit_val(a.last()) as int);
        lemma_fundamental_div_mod_converse(va as int, 10, dec_val(b.drop_last()) as int,
            dec_digit_val(b.last()) as int);
        assert(dec_digit_val(a.last()) == dec_digit_val(b.last()));
        assert(a.last() as u32 == b.last() as u32);
        vstd::utf8::char_u32_cast(a.last(), a.last() as u32);
        vstd::utf8::char_u32_cast(b.last(), b.last() as u32);
        assert(a.last() == b.last());
        assert forall|i: int| 0 <= i < a.drop_last().len()
            implies is_dec_digit(#[trigger] a.drop_last()[i]) by {
            assert(a.drop_last()[i] == a[i]);
        }
        assert forall|i: int| 0 <= i < b.drop_last().len()
            implies is_dec_digit(#[trigger] b.drop_last()[i]) by {
            assert(b.drop_last()[i] == b[i]);
        }
        assert(a.drop_last()[0] == a[0]);
        assert(b.drop_last()[0] == b[0]);
        lemma_canonical_dec_injective(a.drop_last(), b.drop_last());
        assert forall|i: int| 0 <= i < a.len() implies a[i] == b[i] by {
            if i < a.len() - 1 {
                assert(a.drop_last()[i] == a[i]);
                assert(b.drop_last()[i] == b[i]);
            } else {
                assert(a[i] == a.last());
                assert(b[i] == b.last());
            }
        }
        assert(a =~= b);
    }
}

/// A digit string's value stays under ten to its length.
pub proof fn lemma_dec_val_upper(s: Seq<char>)
    requires
        all_dec(s),
    ensures
        dec_val(s) < pow10(s.len()),
    decreases s.len(),
{
    if s.len() > 0 {
        assert forall|i: int| 0 <= i < s.drop_last().len()
            implies is_dec_digit(#[trigger] s.drop_last()[i]) by {
            assert(s.drop_last()[i] == s[i]);
        }
        lemma_dec_val_upper(s.drop_last());
        assert(dec_digit_val(s.last()) <= 9);
    }
}

/// A digit string without a leading zero reaches ten to one less than its
/// length.
pub proof fn lemma_dec_val_lower(s: Seq<char>)
    requires
        all_dec(s),
        s.len() >= 1,
        s[0] != '0',
    ensures
        dec_val(s) >= pow10((s.len() - 1) as nat),
    decreases s.len(),
{
    if s.len() == 1 {
        assert(s[0] as u32 != 48) by {
            vstd::utf8::char_u32_cast(s[0], s[0] as u32);
            vstd::utf8::char_u32_cast('0', '0' as u32);
        }
    } else {
        assert forall|i: int| 0 <= i < s.drop_last().len()
            implies is_dec_digit(#[trigger] s.drop_last()[i]) by {
            assert(s.drop_last()[i] == s[i]);
        }
        assert(s.drop_last()[0] == s[0]);
        lemma_dec_val_lower(s.drop_last());
    }
}

pub proof fn lemma_pow10_monotone(i: nat, j: nat)
    requires
        i <= j,
    ensures
        pow10(i) <= pow10(j),
        pow10(i) >= 1,
    decreases j,
{
    if j > 0 {
        if i == j {
            lemma_pow10_monotone((i - 1) as nat, (j - 1) as nat);
        } else {
            lemma_pow10_monotone(i, (j - 1) as nat);
        }
    }
}

/// A strictly shorter canonical string denotes a strictly smaller value, so
/// equal values force equal lengths.
proof fn lemma_canonical_lengths_agree(a: Seq<char>, b: Seq<char>)
    requires
        is_canonical_dec(a),
        is_canonical_dec(b),
        a.len() < b.len(),
    ensures
        dec_val(a) != dec_val(b),
{
    lemma_dec_val_upper(a);
    if b.len() == 1 {
        assert(a.len() == 0);
    } else {
        lemma_dec_val_lower(b);
        lemma_pow10_monotone(a.len(), (b.len() - 1) as nat);
    }
}

} // verus!
