//! The layout of the host's runtime objects, and the runtime calls that build
//! new ones.
//!
//! Object header (little-endian):
//! ```text
//!   offset 0: i32 m_rc
//!   offset 4: u16 m_cs_sz
//!   offset 6: u8  m_other   (number of object fields for constructors)
//!   offset 7: u8  m_tag     (constructor tag)
//!   offset 8: u64 m_objs[]  (constructor fields)
//! ```
//! Constructor scalar fields live after the object fields; the offsets passed
//! to the `ctor_get_*` functions are relative to the start of `m_objs`.
//! What reads an object borrows it: the object is neither changed nor
//! reference-counted. What builds one describes the calls that do.

use crate::big::{limbs_of, limbs_value, BigNat};
use crate::memory::{
    byte_at, bytes_at, read_bytes, read_u32, read_u64, read_words, readable, u32_at, u64_at,
    words_at, Bytes, Memory,
};
use crate::plan::{
    c_text, decimal_plan, lemma_nul, name_plan, nat_plan, string_plan, Build, Fn1, Fn2, Fn3, Fn4,
    Plan,
};
use crate::text::decimal;
use vstd::prelude::*;
use vstd::utf8::{decode_utf8, encode_utf8, valid_utf8};

verus! {

/// A reference to a runtime object: the address of a heap object, or a tagged
/// scalar (see [`is_scalar`]).
pub type LeanObj = u64;

/// Bytes in an object header.
pub const HEADER_SIZE: u64 = 8;

/// Bytes in a pointer.
pub const PTR_SIZE: u64 = 8;

/// Where the limb count of a big natural number lies.
pub const MPZ_SIZE_OFFSET: u64 = 12;

/// Where the address of the limbs of a big natural number lies.
pub const MPZ_LIMBS_OFFSET: u64 = 16;

/// Where the byte size of a string, its final NUL included, lies.
pub const STRING_SIZE_OFFSET: u64 = 8;

/// Where the bytes of a string begin.
pub const STRING_DATA_OFFSET: u64 = 32;

// ---------------------------------------------------------------------------
// Constructor objects
// ---------------------------------------------------------------------------

/// Whether `o` is a tagged scalar: its lowest bit is set.
pub open spec fn scalar(o: LeanObj) -> bool {
    o % 2 == 1
}

/// The value that the tagged scalar `o` carries.
pub open spec fn unboxed(o: LeanObj) -> u64 {
    o / 2
}

/// Whether the constructor tag of `o` can be read.
pub open spec fn has_tag(m: Bytes, o: LeanObj) -> bool {
    readable(m, o + 7, 1)
}

/// The constructor tag of `o`.
pub open spec fn tag_of(m: Bytes, o: LeanObj) -> u8 {
    byte_at(m, o + 7)
}

/// Whether object field `i` of `o` can be read.
pub open spec fn has_slot(m: Bytes, o: LeanObj, i: int) -> bool {
    readable(m, o + HEADER_SIZE + PTR_SIZE * i, 8)
}

/// Object field `i` of `o`.
pub open spec fn slot(m: Bytes, o: LeanObj, i: int) -> LeanObj {
    u64_at(m, o + HEADER_SIZE + PTR_SIZE * i)
}

/// Whether the first `n` object fields of `o` can be read.
pub open spec fn has_slots(m: Bytes, o: LeanObj, n: int) -> bool {
    forall|i: int| 0 <= i < n ==> #[trigger] has_slot(m, o, i)
}

/// Whether `n` scalar bytes at `offset` of `o` can be read.
pub open spec fn has_scalars(m: Bytes, o: LeanObj, offset: int, n: int) -> bool {
    readable(m, o + HEADER_SIZE + offset, n)
}

/// The scalar byte at `offset` of `o`.
pub open spec fn scalar_u8(m: Bytes, o: LeanObj, offset: int) -> u8 {
    byte_at(m, o + HEADER_SIZE + offset)
}

/// Whether `o` is a tagged scalar.
pub fn is_scalar(o: LeanObj) -> (r: bool)
    ensures
        r == scalar(o),
{
    assert(o & 1 == o % 2) by (bit_vector);
    o & 1 == 1
}

/// The value that a tagged scalar carries.
pub fn unbox(o: LeanObj) -> (r: u64)
    ensures
        r == unboxed(o),
{
    assert(o >> 1 == o / 2) by (bit_vector);
    o >> 1
}

/// The constructor tag of a heap object.
pub fn ptr_tag<M: Memory>(mem: &M, o: LeanObj) -> (r: u8)
    requires
        has_tag(mem.bytes(), o),
    ensures
        r == tag_of(mem.bytes(), o),
{
    mem.read_u8(o + 7)
}

/// The number of object fields of a constructor object.
pub fn ctor_num_objs<M: Memory>(mem: &M, o: LeanObj) -> (r: u8)
    requires
        readable(mem.bytes(), o + 6, 1),
    ensures
        r == byte_at(mem.bytes(), o + 6),
{
    mem.read_u8(o + 6)
}

/// Object field `i` of a constructor object.
pub fn ctor_get<M: Memory>(mem: &M, o: LeanObj, i: u64) -> (r: LeanObj)
    requires
        has_slot(mem.bytes(), o, i as int),
    ensures
        r == slot(mem.bytes(), o, i as int),
{
    read_u64(mem, o + (HEADER_SIZE + PTR_SIZE * i))
}

/// The `u8` scalar field at byte `offset` past the start of the object fields.
pub fn ctor_get_uint8<M: Memory>(mem: &M, o: LeanObj, offset: u64) -> (r: u8)
    requires
        has_scalars(mem.bytes(), o, offset as int, 1),
    ensures
        r == scalar_u8(mem.bytes(), o, offset as int),
{
    mem.read_u8(o + (HEADER_SIZE + offset))
}

/// The `u32` scalar field at byte `offset` past the start of the object fields.
pub fn ctor_get_uint32<M: Memory>(mem: &M, o: LeanObj, offset: u64) -> (r: u32)
    requires
        has_scalars(mem.bytes(), o, offset as int, 4),
    ensures
        r == u32_at(mem.bytes(), o + HEADER_SIZE + offset),
{
    read_u32(mem, o + (HEADER_SIZE + offset))
}

/// The `u64` scalar field at byte `offset` past the start of the object fields.
pub fn ctor_get_uint64<M: Memory>(mem: &M, o: LeanObj, offset: u64) -> (r: u64)
    requires
        has_scalars(mem.bytes(), o, offset as int, 8),
    ensures
        r == u64_at(mem.bytes(), o + HEADER_SIZE + offset),
{
    read_u64(mem, o + (HEADER_SIZE + offset))
}

// ---------------------------------------------------------------------------
// Natural numbers
// ---------------------------------------------------------------------------

/// The limb count that the signed 32-bit word `w` stands for: its absolute value.
pub open spec fn limb_count(w: u32) -> nat {
    if w < 0x8000_0000 {
        w as nat
    } else {
        (0x1_0000_0000 - w) as nat
    }
}

/// The limb count of the big natural number `o`.
pub open spec fn mpz_len(m: Bytes, o: LeanObj) -> nat {
    limb_count(u32_at(m, o + MPZ_SIZE_OFFSET))
}

/// Whether the big natural number `o` can be read: its limb count and, where
/// there are limbs, their address and the limbs.
pub open spec fn mpz_readable(m: Bytes, o: LeanObj) -> bool {
    &&& readable(m, o + MPZ_SIZE_OFFSET, 4)
    &&& mpz_len(m, o) > 0 ==> {
        &&& readable(m, o + MPZ_LIMBS_OFFSET, 8)
        &&& readable(m, u64_at(m, o + MPZ_LIMBS_OFFSET) as int, (8 * mpz_len(m, o)) as int)
    }
}

/// The limbs of the big natural number `o`, least significant first.
pub open spec fn mpz_limbs(m: Bytes, o: LeanObj) -> Seq<u64> {
    words_at(m, u64_at(m, o + MPZ_LIMBS_OFFSET) as int, mpz_len(m, o))
}

/// Whether the natural number `o` can be read.
pub open spec fn nat_readable(m: Bytes, o: LeanObj) -> bool {
    scalar(o) || mpz_readable(m, o)
}

/// The natural number `o`.
pub open spec fn nat_value(m: Bytes, o: LeanObj) -> nat {
    if scalar(o) {
        unboxed(o) as nat
    } else {
        limbs_value(mpz_limbs(m, o))
    }
}

/// A natural number is a tagged scalar (small) or a heap object (big). Returns
/// the value of a small one, `None` for a big one.
pub fn nat_as_usize(o: LeanObj) -> (r: Option<u64>)
    ensures
        r == (if scalar(o) {
            Some(unboxed(o))
        } else {
            None
        }),
{
    if is_scalar(o) {
        Some(unbox(o))
    } else {
        None
    }
}

/// Decodes a natural number, small or big.
pub fn nat_to_biguint<M: Memory>(mem: &M, o: LeanObj) -> (r: BigNat)
    requires
        nat_readable(mem.bytes(), o),
    ensures
        r@ == limbs_of(nat_value(mem.bytes(), o)),
{
    if is_scalar(o) {
        return BigNat::from_u64(unbox(o));
    }
    let size: u32 = read_u32(mem, o + MPZ_SIZE_OFFSET);
    if size == 0 {
        assert(limbs_value(mpz_limbs(mem.bytes(), o)) == 0);
        return BigNat::from_u64(0);
    }
    let nlimbs: u64 = if size < 0x8000_0000 {
        size as u64
    } else {
        0x1_0000_0000 - size as u64
    };
    let limbs_ptr: u64 = read_u64(mem, o + MPZ_LIMBS_OFFSET);
    let limbs = read_words(mem, limbs_ptr, nlimbs);
    BigNat::from_words_le(&limbs)
}

// ---------------------------------------------------------------------------
// Strings
// ---------------------------------------------------------------------------

/// The length in bytes of the string `o`, its final NUL not counted.
pub open spec fn string_len(m: Bytes, o: LeanObj) -> nat {
    let size = u64_at(m, o + STRING_SIZE_OFFSET);
    if size == 0 {
        0
    } else {
        (size - 1) as nat
    }
}

/// Whether the string `o` can be read.
pub open spec fn string_readable(m: Bytes, o: LeanObj) -> bool {
    &&& readable(m, o + STRING_SIZE_OFFSET, 8)
    &&& readable(m, o + STRING_DATA_OFFSET, string_len(m, o) as int)
}

/// The bytes of the string `o`, without the final NUL.
pub open spec fn string_data(m: Bytes, o: LeanObj) -> Seq<u8> {
    bytes_at(m, o + STRING_DATA_OFFSET, string_len(m, o))
}

/// Whether `o` is a string: it can be read, and its bytes are UTF-8.
pub open spec fn is_string(m: Bytes, o: LeanObj) -> bool {
    string_readable(m, o) && valid_utf8(string_data(m, o))
}

/// The characters of the string `o`.
pub open spec fn string_of(m: Bytes, o: LeanObj) -> Seq<char> {
    decode_utf8(string_data(m, o))
}

/// The bytes of a string, without the final NUL.
pub fn string_bytes<M: Memory>(mem: &M, o: LeanObj) -> (r: Vec<u8>)
    requires
        string_readable(mem.bytes(), o),
    ensures
        r@ == string_data(mem.bytes(), o),
{
    let size: u64 = read_u64(mem, o + STRING_SIZE_OFFSET);
    let len: u64 = size.saturating_sub(1);
    if len == 0 {
        return Vec::new();
    }
    read_bytes(mem, o + STRING_DATA_OFFSET, len)
}

/// `String::from_utf8` on bytes that are UTF-8: the string that they encode.
#[verifier::external_body]
fn string_from_utf8(bytes: Vec<u8>) -> (r: String)
    requires
        valid_utf8(bytes@),
    ensures
        r@ == decode_utf8(bytes@),
{
    String::from_utf8(bytes).unwrap()
}

/// The characters of a string.
pub fn string_str<M: Memory>(mem: &M, o: LeanObj) -> (r: String)
    requires
        is_string(mem.bytes(), o),
    ensures
        r@ == string_of(mem.bytes(), o),
{
    string_from_utf8(string_bytes(mem, o))
}

// ---------------------------------------------------------------------------
// Builders
// ---------------------------------------------------------------------------

/// The text that arrives where `s` is passed as a NUL-terminated string.
fn c_string(s: &str) -> (r: String)
    ensures
        r@ == c_text(s@),
{
    let bytes = s.as_bytes();
    proof {
        lemma_nul(s@);
    }
    let mut i: usize = 0;
    while i < bytes.len()
        invariant
            i <= bytes.len(),
            forall|j: int| 0 <= j < i ==> bytes@[j] != 0,
            bytes@ == encode_utf8(s@),
            encode_utf8(s@).contains(0u8) <==> s@.contains('\0'),
        decreases bytes.len() - i,
    {
        if bytes[i] == 0 {
            proof {
                assert(bytes@[i as int] == 0u8);
            }
            return String::new();
        }
        i = i + 1;
    }
    s.to_owned()
}

/// The string `s`.
pub fn mk_string(s: &str) -> (r: Build)
    ensures
        r.plan() == string_plan(s@),
{
    Build::Str(s.to_owned())
}

/// A dotted name, such as `String.ofList` out of `["String", "ofList"]`.
pub fn mk_name(parts: &[&str]) -> (r: Build)
    ensures
        r.plan() == name_plan(parts@.map_values(|p: &str| p@)),
{
    let ghost texts = parts@.map_values(|p: &str| p@);
    let mut n = Build::Object(1);
    let mut i: usize = 0;
    proof {
        assert(texts.take(0) =~= seq![]);
    }
    while i < parts.len()
        invariant
            i <= parts.len(),
            texts == parts@.map_values(|p: &str| p@),
            n.plan() == name_plan(texts.take(i as int)),
        decreases parts.len() - i,
    {
        n = Build::call2(Fn2::NameStr, n, mk_string(parts[i]));
        proof {
            assert(texts.take(i + 1).drop_last() =~= texts.take(i as int));
        }
        i = i + 1;
    }
    proof {
        assert(texts.take(i as int) =~= texts);
    }
    n
}

/// The anonymous name.
pub fn name_anon() -> (r: Build)
    ensures
        r.plan() == Plan::Object(1),
{
    Build::Object(1)
}

/// The name `pfx` with the string `s` behind it.
pub fn name_mk_str(pfx: Build, s: &str) -> (r: Build)
    ensures
        r.plan() == Plan::Call2(Fn2::NameStr, Box::new(pfx.plan()), Box::new(string_plan(s@))),
{
    Build::call2(Fn2::NameStr, pfx, mk_string(s))
}

/// The name `pfx` with the number `n` behind it.
pub fn name_mk_num(pfx: Build, n: u64) -> (r: Build)
    ensures
        r.plan() == Plan::Call2(Fn2::NameNum, Box::new(pfx.plan()), Box::new(nat_plan(n))),
{
    Build::call2(Fn2::NameNum, pfx, mk_nat(n))
}

/// A natural number: a tagged scalar where it fits in one.
pub fn mk_nat(n: u64) -> (r: Build)
    ensures
        r.plan() == nat_plan(n),
{
    if n <= 0x7fff_ffff_ffff_ffff {
        assert((n << 1) | 1 == 2 * n + 1) by (bit_vector)
            requires
                n <= 0x7fff_ffff_ffff_ffff,
        ;
        Build::Object((n << 1) | 1)
    } else {
        mk_nat_str(decimal(n).as_str())
    }
}

/// A natural number of any size, out of its decimal. A text with a NUL in it is
/// none, and arrives empty.
pub fn mk_nat_str(decimal: &str) -> (r: Build)
    ensures
        r.plan() == decimal_plan(decimal@),
{
    Build::Nat(c_string(decimal))
}

/// The bound variable `idx`.
pub fn expr_bvar(idx: u64) -> (r: Build)
    ensures
        r.plan() == Plan::Call1(Fn1::ExprBVar, Box::new(nat_plan(idx))),
{
    Build::call1(Fn1::ExprBVar, mk_nat(idx))
}

/// The free variable with the given name. Its identifier is a structure that
/// holds the name alone.
pub fn expr_fvar(name: Build) -> (r: Build)
    ensures
        r.plan() == Plan::Call1(
            Fn1::ExprFVar,
            Box::new(Plan::Call1(Fn1::Ctor(0), Box::new(name.plan()))),
        ),
{
    Build::call1(Fn1::ExprFVar, Build::call1(Fn1::Ctor(0), name))
}

/// The sort of the level `l`.
pub fn expr_sort(l: Build) -> (r: Build)
    ensures
        r.plan() == Plan::Call1(Fn1::ExprSort, Box::new(l.plan())),
{
    Build::call1(Fn1::ExprSort, l)
}

/// The constant `n` at the levels `ls`.
pub fn expr_const(n: Build, ls: Build) -> (r: Build)
    ensures
        r.plan() == Plan::Call2(Fn2::ExprConst, Box::new(n.plan()), Box::new(ls.plan())),
{
    Build::call2(Fn2::ExprConst, n, ls)
}

/// The application of `f` to `a`.
pub fn expr_app(f: Build, a: Build) -> (r: Build)
    ensures
        r.plan() == Plan::Call2(Fn2::ExprApp, Box::new(f.plan()), Box::new(a.plan())),
{
    Build::call2(Fn2::ExprApp, f, a)
}

/// The lambda that binds `n` of type `t` in `b`, with the annotation `bi`.
pub fn expr_lam(n: Build, t: Build, b: Build, bi: u8) -> (r: Build)
    ensures
        r.plan() == Plan::Call3(
            Fn3::ExprLambda(bi),
            Box::new(n.plan()),
            Box::new(t.plan()),
            Box::new(b.plan()),
        ),
{
    Build::call3(Fn3::ExprLambda(bi), n, t, b)
}

/// The pi that binds `n` of type `t` in `b`, with the annotation `bi`.
pub fn expr_forall(n: Build, t: Build, b: Build, bi: u8) -> (r: Build)
    ensures
        r.plan() == Plan::Call3(
            Fn3::ExprForall(bi),
            Box::new(n.plan()),
            Box::new(t.plan()),
            Box::new(b.plan()),
        ),
{
    Build::call3(Fn3::ExprForall(bi), n, t, b)
}

/// The let that binds `n` of type `t` to `v` in `b`.
pub fn expr_let(n: Build, t: Build, v: Build, b: Build, nondep: bool) -> (r: Build)
    ensures
        r.plan() == Plan::Call4(
            Fn4::ExprLet(
                if nondep {
                    1
                } else {
                    0
                },
            ),
            Box::new(n.plan()),
            Box::new(t.plan()),
            Box::new(v.plan()),
            Box::new(b.plan()),
        ),
{
    let flag: u8 = if nondep {
        1
    } else {
        0
    };
    Build::Call4(Fn4::ExprLet(flag), Box::new(n), Box::new(t), Box::new(v), Box::new(b))
}

/// Field `idx` of the structure `s`, whose type is `ty`.
pub fn expr_proj(ty: Build, idx: u64, s: Build) -> (r: Build)
    ensures
        r.plan() == Plan::Call3(
            Fn3::ExprProj,
            Box::new(ty.plan()),
            Box::new(nat_plan(idx)),
            Box::new(s.plan()),
        ),
{
    Build::call3(Fn3::ExprProj, ty, mk_nat(idx), s)
}

/// The natural number literal with the given decimal.
pub fn expr_lit_nat(decimal: &str) -> (r: Build)
    ensures
        r.plan() == Plan::Call1(
            Fn1::ExprLit,
            Box::new(Plan::Call1(Fn1::Ctor(0), Box::new(decimal_plan(decimal@)))),
        ),
{
    Build::call1(Fn1::ExprLit, Build::call1(Fn1::Ctor(0), mk_nat_str(decimal)))
}

/// The string literal `s`.
pub fn expr_lit_str(s: &str) -> (r: Build)
    ensures
        r.plan() == Plan::Call1(
            Fn1::ExprLit,
            Box::new(Plan::Call1(Fn1::Ctor(1), Box::new(string_plan(s@)))),
        ),
{
    Build::call1(Fn1::ExprLit, Build::call1(Fn1::Ctor(1), mk_string(s)))
}

/// The level zero.
pub fn level_zero() -> (r: Build)
    ensures
        r.plan() == Plan::Call1(Fn1::LevelZero, Box::new(Plan::Object(1))),
{
    Build::call1(Fn1::LevelZero, Build::Object(1))
}

/// The successor of `l`.
pub fn level_succ(l: Build) -> (r: Build)
    ensures
        r.plan() == Plan::Call1(Fn1::LevelSucc, Box::new(l.plan())),
{
    Build::call1(Fn1::LevelSucc, l)
}

/// The maximum of `a` and `b`.
pub fn level_max(a: Build, b: Build) -> (r: Build)
    ensures
        r.plan() == Plan::Call2(Fn2::LevelMax, Box::new(a.plan()), Box::new(b.plan())),
{
    Build::call2(Fn2::LevelMax, a, b)
}

/// The impredicative maximum of `a` and `b`.
pub fn level_imax(a: Build, b: Build) -> (r: Build)
    ensures
        r.plan() == Plan::Call2(Fn2::LevelIMax, Box::new(a.plan()), Box::new(b.plan())),
{
    Build::call2(Fn2::LevelIMax, a, b)
}

/// The level parameter `n`.
pub fn level_param(n: Build) -> (r: Build)
    ensures
        r.plan() == Plan::Call1(Fn1::LevelParam, Box::new(n.plan())),
{
    Build::call1(Fn1::LevelParam, n)
}

/// The list with `head` in front of `tail`.
pub fn list_cons(head: Build, tail: Build) -> (r: Build)
    ensures
        r.plan() == Plan::Call2(Fn2::Ctor(1), Box::new(head.plan()), Box::new(tail.plan())),
{
    Build::call2(Fn2::Ctor(1), head, tail)
}

/// The empty list.
pub fn list_nil() -> (r: Build)
    ensures
        r.plan() == Plan::Object(1),
{
    Build::Object(1)
}

} // verus!
