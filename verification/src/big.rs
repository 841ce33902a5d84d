//! Natural numbers of any size, as base 2^64 digits.
//!
//! The digits come from `num_bigint`; this module says which digits they are.

use num_bigint::BigUint;
use vstd::arithmetic::div_mod::lemma_fundamental_div_mod;
use vstd::arithmetic::power::{lemma_pow0, pow};
use vstd::prelude::*;

verus! {

/// 2^64, the base of the digits.
pub open spec fn limb_base() -> nat {
    0x1_0000_0000_0000_0000
}

/// The number whose base 2^64 digits, least significant first, are `limbs`.
pub open spec fn limbs_value(limbs: Seq<u64>) -> nat
    decreases limbs.len(),
{
    if limbs.len() == 0 {
        0
    } else {
        limbs[0] as nat + limb_base() * limbs_value(limbs.drop_first())
    }
}

/// The number whose base 2^8 digits, least significant first, are `bytes`.
pub open spec fn bytes_value(bytes: Seq<u8>) -> nat
    decreases bytes.len(),
{
    if bytes.len() == 0 {
        0
    } else {
        bytes[0] as nat + 256 * bytes_value(bytes.drop_first())
    }
}

/// The base 2^64 digits of `v`, least significant first, without zeros at the
/// most significant end.
pub open spec fn limbs_of(v: nat) -> Seq<u64>
    decreases v,
{
    if v == 0 {
        seq![]
    } else {
        seq![(v % limb_base()) as u64] + limbs_of(v / limb_base())
    }
}

/// The eight bytes of `x`, least significant first.
pub open spec fn le_bytes(x: u64) -> Seq<u8> {
    Seq::new(8, |i: int| byte_of(x, i))
}

/// Byte `i` of `x`, counted from the least significant one.
pub open spec fn byte_of(x: u64, i: int) -> u8 {
    (if i == 0 {
        x % 256
    } else if i == 1 {
        x / 0x100 % 256
    } else if i == 2 {
        x / 0x1_0000 % 256
    } else if i == 3 {
        x / 0x100_0000 % 256
    } else if i == 4 {
        x / 0x1_0000_0000 % 256
    } else if i == 5 {
        x / 0x100_0000_0000 % 256
    } else if i == 6 {
        x / 0x1_0000_0000_0000 % 256
    } else {
        x / 0x100_0000_0000_0000
    }) as u8
}

/// A natural number of any size.
#[derive(Debug, Clone, PartialEq, Eq)]
pub struct BigNat {
    /// Base 2^64 digits, least significant first, the last one not zero.
    pub limbs: Vec<u64>,
}

impl View for BigNat {
    type V = Seq<u64>;

    open spec fn view(&self) -> Seq<u64> {
        self.limbs@
    }
}

/// `BigUint::from` on a `u64`, read back with `BigUint::to_u64_digits`: the
/// base 2^64 digits of `n`, with no zero at the most significant end.
#[verifier::external_body]
fn biguint_from_u64(n: u64) -> (limbs: Vec<u64>)
    ensures
        limbs@ == limbs_of(n as nat),
{
    BigUint::from(n).to_u64_digits()
}

/// `BigUint::from_bytes_le`, read back with `BigUint::to_u64_digits`: the base
/// 2^64 digits of the number whose base 2^8 digits are `bytes`, least
/// significant first, with no zero at the most significant end.
#[verifier::external_body]
fn biguint_from_bytes_le(bytes: &[u8]) -> (limbs: Vec<u64>)
    ensures
        limbs@ == limbs_of(bytes_value(bytes@)),
{
    BigUint::from_bytes_le(bytes).to_u64_digits()
}

impl BigNat {
    /// The number `n`.
    pub fn from_u64(n: u64) -> (r: BigNat)
        ensures
            r@ == limbs_of(n as nat),
    {
        BigNat { limbs: biguint_from_u64(n) }
    }

    /// The number whose little-endian words are `words`, which may end in zeros.
    pub fn from_words_le(words: &Vec<u64>) -> (r: BigNat)
        ensures
            r@ == limbs_of(limbs_value(words@)),
    {
        let mut bytes: Vec<u8> = Vec::new();
        let mut i: usize = 0;
        proof {
            assert(words@.take(0) =~= Seq::<u64>::empty());
            assert(concat_le(words@.take(0)) =~= bytes@);
        }
        while i < words.len()
            invariant
                i <= words.len(),
                bytes@ == concat_le(words@.take(i as int)),
            decreases words.len() - i,
        {
            let x = words[i];
            push_le_bytes(&mut bytes, x);
            proof {
                let t = words@.take(i + 1);
                assert(t.drop_last() =~= words@.take(i as int));
                assert(t.last() == x);
            }
            i = i + 1;
        }
        proof {
            assert(words@.take(i as int) =~= words@);
            lemma_concat_value(words@);
        }
        BigNat { limbs: biguint_from_bytes_le(bytes.as_slice()) }
    }
}

/// Appends the eight bytes of `x`, least significant first.
fn push_le_bytes(bytes: &mut Vec<u8>, x: u64)
    ensures
        final(bytes)@ == old(bytes)@ + le_bytes(x),
{
    bytes.push((x % 256) as u8);
    bytes.push((x / 0x100 % 256) as u8);
    bytes.push((x / 0x1_0000 % 256) as u8);
    bytes.push((x / 0x100_0000 % 256) as u8);
    bytes.push((x / 0x1_0000_0000 % 256) as u8);
    bytes.push((x / 0x100_0000_0000 % 256) as u8);
    bytes.push((x / 0x1_0000_0000_0000 % 256) as u8);
    bytes.push((x / 0x100_0000_0000_0000) as u8);
}

/// The bytes of all words, word after word.
spec fn concat_le(words: Seq<u64>) -> Seq<u8>
    decreases words.len(),
{
    if words.len() == 0 {
        seq![]
    } else {
        concat_le(words.drop_last()) + le_bytes(words.last())
    }
}

/// The same bytes, taken from the front.
proof fn lemma_concat_front(words: Seq<u64>)
    requires
        words.len() > 0,
    ensures
        concat_le(words) == le_bytes(words[0]) + concat_le(words.drop_first()),
    decreases words.len(),
{
    if words.len() == 1 {
        assert(words.drop_last() =~= Seq::<u64>::empty());
        assert(words.drop_first() =~= Seq::<u64>::empty());
        assert(concat_le(words.drop_last()) =~= Seq::<u8>::empty());
        assert(concat_le(words) =~= le_bytes(words[0]) + concat_le(words.drop_first()));
    } else {
        lemma_concat_front(words.drop_last());
        assert(words.drop_last().drop_first() =~= words.drop_first().drop_last());
        assert(words.drop_first().last() == words.last());
        assert(concat_le(words) =~= le_bytes(words[0]) + concat_le(words.drop_first()));
    }
}

/// Eight bytes in front of `rest` are one base 2^64 digit in front of it.
proof fn lemma_word_value(x: u64, rest: Seq<u8>)
    ensures
        bytes_value(le_bytes(x) + rest) == x + limb_base() * bytes_value(rest),
{
    let b = le_bytes(x) + rest;
    let s1 = b.drop_first();
    let s2 = s1.drop_first();
    let s3 = s2.drop_first();
    let s4 = s3.drop_first();
    let s5 = s4.drop_first();
    let s6 = s5.drop_first();
    let s7 = s6.drop_first();
    let s8 = s7.drop_first();
    assert(s8 =~= rest);
    let r = bytes_value(rest) as int;
    assert(bytes_value(s7) == byte_of(x, 7) + 256 * r);
    assert(bytes_value(s6) == byte_of(x, 6) + 256 * bytes_value(s7));
    assert(bytes_value(s5) == byte_of(x, 5) + 256 * bytes_value(s6));
    assert(bytes_value(s4) == byte_of(x, 4) + 256 * bytes_value(s5));
    assert(bytes_value(s3) == byte_of(x, 3) + 256 * bytes_value(s4));
    assert(bytes_value(s2) == byte_of(x, 2) + 256 * bytes_value(s3));
    assert(bytes_value(s1) == byte_of(x, 1) + 256 * bytes_value(s2));
    assert(bytes_value(b) == byte_of(x, 0) + 256 * bytes_value(s1));
    lemma_byte_sum(x);
}

/// A word is the sum of its bytes, each at its weight.
proof fn lemma_byte_sum(x: u64)
    ensures
        x == byte_of(x, 0) + 0x100 * byte_of(x, 1) + 0x1_0000 * byte_of(x, 2) + 0x100_0000
            * byte_of(x, 3) + 0x1_0000_0000 * byte_of(x, 4) + 0x100_0000_0000 * byte_of(x, 5)
            + 0x1_0000_0000_0000 * byte_of(x, 6) + 0x100_0000_0000_0000 * byte_of(x, 7),
{
    assert(x / 0x100 / 0x100 == x / 0x1_0000);
    assert(x / 0x1_0000 / 0x100 == x / 0x100_0000);
    assert(x / 0x100_0000 / 0x100 == x / 0x1_0000_0000);
    assert(x / 0x1_0000_0000 / 0x100 == x / 0x100_0000_0000);
    assert(x / 0x100_0000_0000 / 0x100 == x / 0x1_0000_0000_0000);
    assert(x / 0x1_0000_0000_0000 / 0x100 == x / 0x100_0000_0000_0000);
    assert(x / 0x100_0000_0000_0000 < 256);
}

/// The bytes of the words make up the number that the words make up.
proof fn lemma_concat_value(words: Seq<u64>)
    ensures
        bytes_value(concat_le(words)) == limbs_value(words),
    decreases words.len(),
{
    if words.len() > 0 {
        lemma_concat_front(words);
        lemma_concat_value(words.drop_first());
        lemma_word_value(words[0], concat_le(words.drop_first()));
    }
}

/// Digits read back: every number is the number that its own digits make up.
pub proof fn law_limbs_roundtrip(v: nat)
    ensures
        limbs_value(limbs_of(v)) == v,
    decreases v,
{
    if v != 0 {
        law_limbs_roundtrip(v / limb_base());
        let l = limbs_of(v);
        assert(l.drop_first() =~= limbs_of(v / limb_base()));
        lemma_fundamental_div_mod(v as int, limb_base() as int);
    }
}

/// Numbers with the same digits are the same number.
pub proof fn law_limbs_injective(v: nat, w: nat)
    requires
        limbs_of(v) == limbs_of(w),
    ensures
        v == w,
{
    law_limbs_roundtrip(v);
    law_limbs_roundtrip(w);
}

/// Each limb counts by its place: one more limb on top adds it times the base
/// to the power of the number of limbs below.
pub proof fn law_limbs_by_place(limbs: Seq<u64>, x: u64)
    ensures
        limbs_value(seq![]) == 0,
        limbs_value(limbs.push(x)) == limbs_value(limbs) + x * pow(
            0x1_0000_0000_0000_0000,
            limbs.len(),
        ),
    decreases limbs.len(),
{
    let b: int = 0x1_0000_0000_0000_0000;
    let v = x as int;
    if limbs.len() == 0 {
        lemma_pow0(b);
        assert(limbs.push(x).drop_first() =~= limbs);
        assert(v * 1 == v) by (nonlinear_arith);
    } else {
        let rest = limbs.drop_first();
        let p = pow(b, rest.len());
        law_limbs_by_place(rest, x);
        assert(limbs.push(x).drop_first() =~= rest.push(x));
        assert(pow(b, limbs.len()) == b * p) by {
            reveal(pow);
        }
        assert(v * (b * p) == b * (v * p)) by (nonlinear_arith);
    }
}

/// The limbs of a number are as few as can be: the uppermost is no zero.
pub proof fn law_limbs_are_few(v: nat)
    ensures
        v == 0 <==> limbs_of(v).len() == 0,
        v > 0 ==> limbs_of(v).last() != 0,
    decreases v,
{
    let b: nat = 0x1_0000_0000_0000_0000;
    if v > 0 {
        law_limbs_are_few(v / b);
        if v < b {
            assert(limbs_of(v) =~= seq![v as u64]);
        } else {
            assert(limbs_of(v).last() == limbs_of(v / b).last());
        }
    }
}

} // verus!
