//! What the bytes of an object say, address by address.
//!
//! An object at an even address `o` has its tag in the byte at `o + 7`, its
//! fields in the 64-bit words from `o + 8` on, and its flags behind them. The
//! laws here start from the bytes themselves, and conclude what the readers
//! make of them.

use crate::big::limbs_value;
use crate::lean_sys::{
    has_slot, has_slots, has_tag, is_string, mpz_len, mpz_limbs, nat_readable, nat_value,
    scalar, scalar_u8, slot, string_data, string_of, string_readable, tag_of, unboxed, LeanObj,
};
use crate::memory::{bytes_at, readable, u32_at, u64_at, words_at, Bytes, Memory, Snapshot};
use crate::term::{
    expr_of, expr_repr, is_expr, is_level, is_levels, is_list, is_name, is_names, is_nat,
    lemma_expr_of, lemma_level_of, lemma_levels_of, lemma_list_of, lemma_name_of, lemma_nat_of,
    level_kind_is, level_of, level_repr, levels_of, levels_repr, list_of, list_repr,
    name_kind_is, name_of, name_repr, names_of, nat_of, nat_repr, term_kind_is, BinderInfo,
    ExprTree, Level, LevelKind, LevelTree, Levels, Lit, Name, NameKind, NameTree, Nat, NatTree,
    Term, TermKind, BINDER_INFO_OFFSET, LET_NONDEP_OFFSET,
};
use vstd::prelude::*;
use vstd::utf8::{encode_utf8, encode_utf8_decode_utf8, encode_utf8_valid_utf8};

verus! {

// ---------------------------------------------------------------------------
// Bytes and words
// ---------------------------------------------------------------------------

/// The byte at address `a`, as a number.
pub open spec fn raw_byte(m: Bytes, a: int) -> int {
    m[a as u64] as int
}

/// The four bytes from address `a` on, as a number.
#[verifier::opaque]
pub open spec fn raw_half(m: Bytes, a: int) -> int {
    raw_byte(m, a) + 0x100 * raw_byte(m, a + 1) + 0x1_0000 * raw_byte(m, a + 2) + 0x100_0000
        * raw_byte(m, a + 3)
}

/// The eight bytes from address `a` on, as a number.
#[verifier::opaque]
pub open spec fn raw_word(m: Bytes, a: int) -> int {
    raw_byte(m, a) + 0x100 * raw_byte(m, a + 1) + 0x1_0000 * raw_byte(m, a + 2) + 0x100_0000
        * raw_byte(m, a + 3) + 0x1_0000_0000 * raw_byte(m, a + 4) + 0x100_0000_0000 * raw_byte(
        m,
        a + 5,
    ) + 0x1_0000_0000_0000 * raw_byte(m, a + 6) + 0x100_0000_0000_0000 * raw_byte(m, a + 7)
}

/// The tag of the object at `o`.
pub open spec fn raw_tag(m: Bytes, o: LeanObj) -> int {
    raw_byte(m, o + 7)
}

/// Field `i` of the object at `o`.
pub open spec fn raw_field(m: Bytes, o: LeanObj, i: int) -> LeanObj {
    raw_word(m, o + 8 + 8 * i) as u64
}

/// Whether `o` is the address of an object whose tag and first `n` fields can
/// be read.
pub open spec fn heap(m: Bytes, o: LeanObj, n: int) -> bool {
    o % 2 == 0 && readable(m, o + 7, 1) && readable(m, o + 8, 8 * n)
}

/// A word in memory is in little-endian order.
pub proof fn law_words_are_little_endian(m: Bytes, a: int)
    ensures
        u32_at(m, a) == raw_half(m, a),
        u64_at(m, a) == raw_word(m, a),
{
    reveal(u32_at);
    reveal(u64_at);
    reveal(raw_half);
    reveal(raw_word);
}

/// A run of bytes, or of words, is read whole and in order.
pub proof fn law_runs(m: Bytes, a: int, n: nat, i: int)
    ensures
        bytes_at(m, a, n).len() == n,
        words_at(m, a, n).len() == n,
        0 <= i < n ==> bytes_at(m, a, n)[i] == raw_byte(m, a + i),
        0 <= i < n ==> words_at(m, a, n)[i] == raw_word(m, a + 8 * i),
{
    law_words_are_little_endian(m, a + 8 * i);
}

/// A copy of memory gives back, at each address, the byte that was copied from
/// there, and can be read there and nowhere else.
pub proof fn law_snapshot(s: Snapshot, i: int)
    requires
        s.base + i <= u64::MAX,
        s.base + i >= 0,
    ensures
        s.bytes().contains_key((s.base + i) as u64) <==> 0 <= i < s.data@.len(),
        0 <= i < s.data@.len() ==> s.bytes()[(s.base + i) as u64] == s.data@[i],
{
}

/// The tagged scalars are the odd words; one of them carries the number that
/// was doubled.
pub proof fn law_scalars(n: u64)
    requires
        n < 0x8000_0000_0000_0000,
    ensures
        scalar((2 * n + 1) as u64),
        unboxed((2 * n + 1) as u64) == n,
        !scalar((2 * n) as u64),
{
}

/// The tag, the fields and the flags of an object are the bytes at their
/// addresses.
pub proof fn law_object_parts(m: Bytes, o: LeanObj, i: int, offset: int)
    ensures
        tag_of(m, o) == raw_tag(m, o),
        slot(m, o, i) == raw_field(m, o, i),
        scalar_u8(m, o, offset) == raw_byte(m, o + 8 + offset),
{
    law_words_are_little_endian(m, o + 8 + 8 * i);
}

/// An object whose bytes can be read has the tag and the fields.
pub proof fn lemma_heap(m: Bytes, o: LeanObj, n: int)
    requires
        heap(m, o, n),
    ensures
        !scalar(o),
        has_tag(m, o),
        has_slots(m, o, n),
{
    assert forall|i: int| 0 <= i < n implies #[trigger] has_slot(m, o, i) by {
        assert forall|k: u64|
            o + 8 + 8 * i <= k < o + 8 + 8 * i + 8 implies #[trigger] m.contains_key(k) by {}
    }
}

// ---------------------------------------------------------------------------
// Strings and numbers
// ---------------------------------------------------------------------------

/// Whether the string object at `o` holds the bytes `bs`: its size is one more
/// than their number, and they are there.
pub open spec fn lays_bytes(m: Bytes, o: LeanObj, bs: Seq<u8>) -> bool {
    &&& readable(m, o + 8, 8)
    &&& raw_word(m, o + 8) == bs.len() + 1
    &&& readable(m, o + 32, bs.len() as int)
    &&& forall|i: int| 0 <= i < bs.len() ==> raw_byte(m, o + 32 + i) == #[trigger] bs[i]
}

/// Whether the string object at `o` holds the text `s`, in UTF-8.
pub open spec fn lays_text(m: Bytes, o: LeanObj, s: Seq<char>) -> bool {
    lays_bytes(m, o, encode_utf8(s))
}

/// A string object is read as the bytes that it holds, all of them; one of size
/// zero has none.
pub proof fn law_bytes_layout(m: Bytes, o: LeanObj, bs: Seq<u8>)
    ensures
        lays_bytes(m, o, bs) ==> string_readable(m, o) && string_data(m, o) == bs,
        raw_word(m, o + 8) == 0 ==> string_data(m, o).len() == 0,
{
    law_words_are_little_endian(m, o + 8);
    if lays_bytes(m, o, bs) {
        assert(string_data(m, o) =~= bs) by {
            assert forall|i: int| 0 <= i < bs.len() implies string_data(m, o)[i] == bs[i] by {
                assert(raw_byte(m, o + 32 + i) == bs[i]);
            }
        }
    }
}

/// A string object is read as the text that it holds, whole.
pub proof fn law_text_layout(m: Bytes, o: LeanObj, s: Seq<char>)
    requires
        lays_text(m, o, s),
    ensures
        is_string(m, o),
        string_of(m, o) == s,
        string_data(m, o) == encode_utf8(s),
{
    law_bytes_layout(m, o, encode_utf8(s));
    encode_utf8_valid_utf8(s);
    encode_utf8_decode_utf8(s);
}

/// Whether the number object at `o` holds the limbs `ws`, under a count with
/// either sign.
pub open spec fn lays_limbs(m: Bytes, o: LeanObj, ws: Seq<u64>) -> bool {
    &&& o % 2 == 0
    &&& readable(m, o + 12, 4)
    &&& ws.len() <= 0x8000_0000
    &&& raw_half(m, o + 12) == ws.len() || raw_half(m, o + 12) == 0x1_0000_0000 - ws.len()
    &&& ws.len() > 0 ==> {
        &&& readable(m, o + 16, 8)
        &&& readable(m, raw_word(m, o + 16), (8 * ws.len()) as int)
    }
    &&& forall|i: int|
        0 <= i < ws.len() ==> raw_word(m, raw_word(m, o + 16) + 8 * i) == #[trigger] ws[i]
}

/// A number object is read as the number that its limbs make up, all of them.
pub proof fn law_limbs_layout(m: Bytes, o: LeanObj, ws: Seq<u64>)
    requires
        lays_limbs(m, o, ws),
    ensures
        nat_readable(m, o),
        nat_value(m, o) == limbs_value(ws),
        is_nat(m, o),
        nat_of(m, o) == NatTree::Big(limbs_value(ws)),
{
    law_words_are_little_endian(m, o + 12);
    law_words_are_little_endian(m, o + 16);
    assert(mpz_len(m, o) == ws.len());
    assert(mpz_limbs(m, o) =~= ws) by {
        assert forall|i: int| 0 <= i < ws.len() implies mpz_limbs(m, o)[i] == ws[i] by {
            law_words_are_little_endian(m, raw_word(m, o + 16) + 8 * i);
            assert(raw_word(m, raw_word(m, o + 16) + 8 * i) == ws[i]);
        }
    }
    lemma_nat_of(m, o, NatTree::Big(limbs_value(ws)));
}

/// Whether the word `o` is the natural number `n`.
pub open spec fn lays_nat(m: Bytes, o: LeanObj, n: NatTree) -> bool {
    match n {
        NatTree::Small(v) => o == 2 * v + 1,
        NatTree::Big(v) => exists|ws: Seq<u64>| #[trigger]
            lays_limbs(m, o, ws) && v == limbs_value(ws),
    }
}

/// A word stands for the natural number that it is.
pub proof fn lemma_nat_layout(m: Bytes, o: LeanObj, n: NatTree)
    requires
        lays_nat(m, o, n),
    ensures
        nat_repr(m, o, n),
{
    if let NatTree::Big(v) = n {
        let ws = choose|ws: Seq<u64>| #[trigger] lays_limbs(m, o, ws) && v == limbs_value(ws);
        law_limbs_layout(m, o, ws);
        assert(nat_repr(m, o, nat_of(m, o)));
    }
}

/// A word is read as the natural number that it is, small or big.
pub proof fn law_nat_layout(m: Bytes, o: LeanObj, n: NatTree)
    requires
        lays_nat(m, o, n),
    ensures
        is_nat(m, o),
        nat_of(m, o) == n,
        nat_readable(m, o),
        nat_value(m, o) == n.value(),
{
    lemma_nat_layout(m, o, n);
    lemma_nat_of(m, o, n);
}

// ---------------------------------------------------------------------------
// Names, levels, lists, expressions
// ---------------------------------------------------------------------------

/// Whether the bytes at `o` spell out the name `t`.
pub open spec fn lays_name(m: Bytes, o: LeanObj, t: NameTree) -> bool
    decreases t,
{
    match t {
        NameTree::Anon => o % 2 == 1,
        NameTree::Str(pre, s) => {
            &&& heap(m, o, 2) && raw_tag(m, o) == 1
            &&& lays_name(m, raw_field(m, o, 0), *pre)
            &&& lays_text(m, raw_field(m, o, 1), s)
        },
        NameTree::Num(pre, n) => {
            &&& heap(m, o, 2) && raw_tag(m, o) != 1
            &&& lays_name(m, raw_field(m, o, 0), *pre)
            &&& lays_nat(m, raw_field(m, o, 1), n)
        },
    }
}

/// Whether the bytes at `o` spell out the level `t`.
pub open spec fn lays_level(m: Bytes, o: LeanObj, t: LevelTree) -> bool
    decreases t,
{
    match t {
        LevelTree::Zero => o % 2 == 1,
        LevelTree::Succ(a) => {
            &&& heap(m, o, 1) && raw_tag(m, o) == 1
            &&& lays_level(m, raw_field(m, o, 0), *a)
        },
        LevelTree::Max(a, b) => {
            &&& heap(m, o, 2) && raw_tag(m, o) == 2
            &&& lays_level(m, raw_field(m, o, 0), *a)
            &&& lays_level(m, raw_field(m, o, 1), *b)
        },
        LevelTree::IMax(a, b) => {
            &&& heap(m, o, 2) && raw_tag(m, o) == 3
            &&& lays_level(m, raw_field(m, o, 0), *a)
            &&& lays_level(m, raw_field(m, o, 1), *b)
        },
        LevelTree::Param(n) => {
            &&& heap(m, o, 1) && raw_tag(m, o) == 4
            &&& lays_name(m, raw_field(m, o, 0), n)
        },
        LevelTree::MVar => heap(m, o, 1) && (raw_tag(m, o) == 0 || raw_tag(m, o) > 4),
    }
}

/// Whether the bytes at `o` spell out the list of the objects `os`.
pub open spec fn lays_list(m: Bytes, o: LeanObj, os: Seq<LeanObj>) -> bool
    decreases os.len(),
{
    if os.len() == 0 {
        o % 2 == 1
    } else {
        &&& heap(m, o, 2)
        &&& raw_field(m, o, 0) == os[0]
        &&& lays_list(m, raw_field(m, o, 1), os.drop_first())
    }
}

/// Whether the bytes at `o` spell out a list of the levels `ls`.
pub open spec fn lays_levels(m: Bytes, o: LeanObj, ls: Seq<LevelTree>) -> bool
    decreases ls.len(),
{
    if ls.len() == 0 {
        o % 2 == 1
    } else {
        &&& heap(m, o, 2)
        &&& lays_level(m, raw_field(m, o, 0), ls[0])
        &&& lays_levels(m, raw_field(m, o, 1), ls.drop_first())
    }
}

/// Whether the bytes at `o` spell out a list of the names `ns`.
pub open spec fn lays_names(m: Bytes, o: LeanObj, ns: Seq<NameTree>) -> bool
    decreases ns.len(),
{
    if ns.len() == 0 {
        o % 2 == 1
    } else {
        &&& heap(m, o, 2)
        &&& lays_name(m, raw_field(m, o, 0), ns[0])
        &&& lays_names(m, raw_field(m, o, 1), ns.drop_first())
    }
}

/// Whether the byte `b` stands for the binder annotation `bi`.
pub open spec fn annotates(b: int, bi: BinderInfo) -> bool {
    match bi {
        BinderInfo::Default => b == 0,
        BinderInfo::Implicit => b == 1,
        BinderInfo::StrictImplicit => b == 2,
        BinderInfo::InstImplicit => b >= 3,
    }
}

/// Whether the bytes at `o` spell out the expression `t`. A word of cached data
/// lies between the fields and the flag of a binder.
pub open spec fn lays_expr(m: Bytes, o: LeanObj, t: ExprTree) -> bool
    decreases t,
{
    let tag = raw_tag(m, o);
    let f0 = raw_field(m, o, 0);
    let f1 = raw_field(m, o, 1);
    let f2 = raw_field(m, o, 2);
    let f3 = raw_field(m, o, 3);
    match t {
        ExprTree::BVar(i) => heap(m, o, 1) && tag == 0 && lays_nat(m, f0, i),
        ExprTree::FVar => heap(m, o, 1) && tag == 1,
        ExprTree::MVar => heap(m, o, 1) && tag == 2,
        ExprTree::Sort(l) => heap(m, o, 1) && tag == 3 && lays_level(m, f0, l),
        ExprTree::Const(n, ls) => {
            &&& heap(m, o, 2) && tag == 4
            &&& lays_name(m, f0, n)
            &&& lays_levels(m, f1, ls)
        },
        ExprTree::App(f, a) => {
            &&& heap(m, o, 2) && tag == 5
            &&& lays_expr(m, f0, *f)
            &&& lays_expr(m, f1, *a)
        },
        ExprTree::Lambda(n, bi, ty, body) => {
            &&& heap(m, o, 3) && tag == 6
            &&& readable(m, o + 40, 1) && annotates(raw_byte(m, o + 40), bi)
            &&& lays_name(m, f0, n)
            &&& lays_expr(m, f1, *ty)
            &&& lays_expr(m, f2, *body)
        },
        ExprTree::Pi(n, bi, ty, body) => {
            &&& heap(m, o, 3) && tag == 7
            &&& readable(m, o + 40, 1) && annotates(raw_byte(m, o + 40), bi)
            &&& lays_name(m, f0, n)
            &&& lays_expr(m, f1, *ty)
            &&& lays_expr(m, f2, *body)
        },
        ExprTree::Let(n, ty, val, body, nondep) => {
            &&& heap(m, o, 4) && tag == 8
            &&& readable(m, o + 48, 1) && (raw_byte(m, o + 48) != 0 <==> nondep)
            &&& lays_name(m, f0, n)
            &&& lays_expr(m, f1, *ty)
            &&& lays_expr(m, f2, *val)
            &&& lays_expr(m, f3, *body)
        },
        ExprTree::NatLit(n) => {
            &&& heap(m, o, 1) && tag == 9
            &&& heap(m, f0, 1) && raw_tag(m, f0) == 0
            &&& lays_nat(m, raw_field(m, f0, 0), n)
        },
        ExprTree::StrLit(s) => {
            &&& heap(m, o, 1) && tag == 9
            &&& heap(m, f0, 1) && raw_tag(m, f0) != 0
            &&& lays_text(m, raw_field(m, f0, 0), s)
        },
        ExprTree::MData(e) => heap(m, o, 2) && tag == 10 && lays_expr(m, f1, *e),
        ExprTree::Proj(n, i, e) => {
            &&& heap(m, o, 3) && tag > 10
            &&& lays_name(m, f0, n)
            &&& lays_nat(m, f1, i)
            &&& lays_expr(m, f2, *e)
        },
    }
}

/// The tag and the fields of an object, as the readers see them.
pub proof fn lemma_parts(m: Bytes, o: LeanObj)
    ensures
        tag_of(m, o) == raw_tag(m, o),
        slot(m, o, 0) == raw_field(m, o, 0),
        slot(m, o, 1) == raw_field(m, o, 1),
        slot(m, o, 2) == raw_field(m, o, 2),
        slot(m, o, 3) == raw_field(m, o, 3),
{
    law_object_parts(m, o, 0, 0);
    law_object_parts(m, o, 1, 0);
    law_object_parts(m, o, 2, 0);
    law_object_parts(m, o, 3, 0);
}

proof fn lemma_name_layout(m: Bytes, o: LeanObj, t: NameTree)
    requires
        lays_name(m, o, t),
    ensures
        name_repr(m, o, t),
    decreases t,
{
    lemma_parts(m, o);
    match t {
        NameTree::Anon => {},
        NameTree::Str(pre, s) => {
            lemma_heap(m, o, 2);
            lemma_name_layout(m, slot(m, o, 0), *pre);
            law_text_layout(m, slot(m, o, 1), s);
        },
        NameTree::Num(pre, n) => {
            lemma_heap(m, o, 2);
            lemma_name_layout(m, slot(m, o, 0), *pre);
            lemma_nat_layout(m, slot(m, o, 1), n);
        },
    }
}

/// An object is read as the name that its bytes spell out.
pub proof fn law_name_layout(m: Bytes, o: LeanObj, t: NameTree)
    requires
        lays_name(m, o, t),
    ensures
        is_name(m, o),
        name_of(m, o) == t,
{
    lemma_name_layout(m, o, t);
    lemma_name_of(m, o, t);
}

proof fn lemma_level_layout(m: Bytes, o: LeanObj, t: LevelTree)
    requires
        lays_level(m, o, t),
    ensures
        level_repr(m, o, t),
    decreases t,
{
    lemma_parts(m, o);
    match t {
        LevelTree::Zero => {},
        LevelTree::Succ(a) => {
            lemma_heap(m, o, 1);
            lemma_level_layout(m, slot(m, o, 0), *a);
        },
        LevelTree::Max(a, b) => {
            lemma_heap(m, o, 2);
            lemma_level_layout(m, slot(m, o, 0), *a);
            lemma_level_layout(m, slot(m, o, 1), *b);
        },
        LevelTree::IMax(a, b) => {
            lemma_heap(m, o, 2);
            lemma_level_layout(m, slot(m, o, 0), *a);
            lemma_level_layout(m, slot(m, o, 1), *b);
        },
        LevelTree::Param(n) => {
            lemma_heap(m, o, 1);
            lemma_name_layout(m, slot(m, o, 0), n);
        },
        LevelTree::MVar => {
            lemma_heap(m, o, 1);
        },
    }
}

/// An object is read as the level that its bytes spell out.
pub proof fn law_level_layout(m: Bytes, o: LeanObj, t: LevelTree)
    requires
        lays_level(m, o, t),
    ensures
        is_level(m, o),
        level_of(m, o) == t,
{
    lemma_level_layout(m, o, t);
    lemma_level_of(m, o, t);
}

proof fn lemma_list_layout(m: Bytes, o: LeanObj, os: Seq<LeanObj>)
    requires
        lays_list(m, o, os),
    ensures
        list_repr(m, o, os),
    decreases os.len(),
{
    lemma_parts(m, o);
    if os.len() > 0 {
        lemma_heap(m, o, 2);
        lemma_list_layout(m, slot(m, o, 1), os.drop_first());
    }
}

/// A list is read as the objects that its cells hold, all of them, head first.
pub proof fn law_list_layout(m: Bytes, o: LeanObj, os: Seq<LeanObj>)
    requires
        lays_list(m, o, os),
    ensures
        is_list(m, o),
        list_of(m, o) == os,
{
    lemma_list_layout(m, o, os);
    lemma_list_of(m, o, os);
}

/// The list behind the cell `o`, and what it holds.
proof fn lemma_cons(m: Bytes, o: LeanObj)
    requires
        heap(m, o, 2),
        is_list(m, raw_field(m, o, 1)),
    ensures
        is_list(m, o),
        list_of(m, o) == seq![raw_field(m, o, 0)] + list_of(m, raw_field(m, o, 1)),
{
    lemma_parts(m, o);
    lemma_heap(m, o, 2);
    let rest = list_of(m, slot(m, o, 1));
    let all = seq![slot(m, o, 0)] + rest;
    assert(list_repr(m, slot(m, o, 1), rest));
    assert(all.drop_first() =~= rest);
    lemma_list_of(m, o, all);
}

proof fn lemma_levels_layout(m: Bytes, o: LeanObj, ls: Seq<LevelTree>)
    requires
        lays_levels(m, o, ls),
    ensures
        levels_repr(m, o, ls),
    decreases ls.len(),
{
    if ls.len() == 0 {
        lemma_list_of(m, o, seq![]);
    } else {
        let f0 = raw_field(m, o, 0);
        let f1 = raw_field(m, o, 1);
        lemma_level_layout(m, f0, ls[0]);
        lemma_levels_layout(m, f1, ls.drop_first());
        lemma_cons(m, o);
        assert forall|i: int| 0 <= i < ls.len() implies level_repr(
            m,
            #[trigger] list_of(m, o)[i],
            ls[i],
        ) by {
            if i > 0 {
                assert(level_repr(m, list_of(m, f1)[i - 1], ls.drop_first()[i - 1]));
            }
        }
    }
}

/// A list is read as the levels that its bytes spell out, in order.
pub proof fn law_levels_layout(m: Bytes, o: LeanObj, ls: Seq<LevelTree>)
    requires
        lays_levels(m, o, ls),
    ensures
        is_levels(m, o),
        levels_of(m, o) == ls,
{
    lemma_levels_layout(m, o, ls);
    lemma_levels_of(m, o, ls);
}

/// A list is read as the names that its bytes spell out, in order.
pub proof fn law_names_layout(m: Bytes, o: LeanObj, ns: Seq<NameTree>)
    requires
        lays_names(m, o, ns),
    ensures
        is_names(m, o),
        names_of(m, o) == ns,
    decreases ns.len(),
{
    if ns.len() == 0 {
        lemma_list_of(m, o, seq![]);
        assert(names_of(m, o) =~= ns);
    } else {
        let f0 = raw_field(m, o, 0);
        let f1 = raw_field(m, o, 1);
        law_name_layout(m, f0, ns[0]);
        law_names_layout(m, f1, ns.drop_first());
        lemma_cons(m, o);
        assert forall|i: int| 0 <= i < ns.len() implies is_name(
            m,
            #[trigger] list_of(m, o)[i],
        ) && names_of(m, o)[i] == ns[i] by {
            if i > 0 {
                assert(is_name(m, list_of(m, f1)[i - 1]));
                assert(names_of(m, f1)[i - 1] == ns.drop_first()[i - 1]);
            }
        }
        assert(names_of(m, o) =~= ns);
    }
}

proof fn lemma_expr_layout(m: Bytes, o: LeanObj, t: ExprTree)
    requires
        lays_expr(m, o, t),
    ensures
        expr_repr(m, o, t),
    decreases t,
{
    lemma_parts(m, o);
    law_object_parts(m, o, 0, BINDER_INFO_OFFSET as int);
    law_object_parts(m, o, 0, LET_NONDEP_OFFSET as int);
    let s0 = slot(m, o, 0);
    let s1 = slot(m, o, 1);
    let s2 = slot(m, o, 2);
    let s3 = slot(m, o, 3);
    match t {
        ExprTree::BVar(i) => {
            lemma_heap(m, o, 1);
            lemma_nat_layout(m, s0, i);
        },
        ExprTree::FVar => {
            lemma_heap(m, o, 1);
        },
        ExprTree::MVar => {
            lemma_heap(m, o, 1);
        },
        ExprTree::Sort(l) => {
            lemma_heap(m, o, 1);
            lemma_level_layout(m, s0, l);
        },
        ExprTree::Const(n, ls) => {
            lemma_heap(m, o, 2);
            lemma_name_layout(m, s0, n);
            lemma_levels_layout(m, s1, ls);
        },
        ExprTree::App(f, a) => {
            lemma_heap(m, o, 2);
            lemma_expr_layout(m, s0, *f);
            lemma_expr_layout(m, s1, *a);
        },
        ExprTree::Lambda(n, _, ty, body) => {
            lemma_heap(m, o, 3);
            lemma_name_layout(m, s0, n);
            lemma_expr_layout(m, s1, *ty);
            lemma_expr_layout(m, s2, *body);
        },
        ExprTree::Pi(n, _, ty, body) => {
            lemma_heap(m, o, 3);
            lemma_name_layout(m, s0, n);
            lemma_expr_layout(m, s1, *ty);
            lemma_expr_layout(m, s2, *body);
        },
        ExprTree::Let(n, ty, val, body, _) => {
            lemma_heap(m, o, 4);
            lemma_name_layout(m, s0, n);
            lemma_expr_layout(m, s1, *ty);
            lemma_expr_layout(m, s2, *val);
            lemma_expr_layout(m, s3, *body);
        },
        ExprTree::NatLit(n) => {
            lemma_heap(m, o, 1);
            lemma_heap(m, s0, 1);
            lemma_parts(m, s0);
            assert(has_slot(m, s0, 0));
            lemma_nat_layout(m, slot(m, s0, 0), n);
        },
        ExprTree::StrLit(s) => {
            lemma_heap(m, o, 1);
            lemma_heap(m, s0, 1);
            lemma_parts(m, s0);
            assert(has_slot(m, s0, 0));
            law_text_layout(m, slot(m, s0, 0), s);
        },
        ExprTree::MData(e) => {
            lemma_heap(m, o, 2);
            lemma_expr_layout(m, s1, *e);
        },
        ExprTree::Proj(n, i, e) => {
            lemma_heap(m, o, 3);
            lemma_name_layout(m, s0, n);
            lemma_nat_layout(m, s1, i);
            lemma_expr_layout(m, s2, *e);
        },
    }
}

/// An object is read as the expression that its bytes spell out.
pub proof fn law_expr_layout(m: Bytes, o: LeanObj, t: ExprTree)
    requires
        lays_expr(m, o, t),
    ensures
        is_expr(m, o),
        expr_of(m, o) == t,
{
    lemma_expr_layout(m, o, t);
    lemma_expr_of(m, o, t);
}

// ---------------------------------------------------------------------------
// Kinds
// ---------------------------------------------------------------------------

/// What is decoded of a name is what its bytes say: a scalar is anonymous, and
/// the tag tells a string from a number behind the prefix.
pub proof fn law_name_kind(m: Bytes, o: LeanObj, s: Seq<char>, k: NameKind)
    requires
        name_kind_is(m, o, k),
    ensures
        o % 2 == 1 ==> k is Anon,
        o % 2 == 0 && raw_tag(m, o) == 1 && lays_text(m, raw_field(m, o, 1), s) ==> (
        k matches NameKind::Str(q, u) && q.0 == raw_field(m, o, 0) && u@ == s),
        o % 2 == 0 && raw_tag(m, o) != 1 ==> k == NameKind::Num(
            Name(raw_field(m, o, 0)),
            Nat(raw_field(m, o, 1)),
        ),
{
    lemma_parts(m, o);
    if lays_text(m, raw_field(m, o, 1), s) {
        law_text_layout(m, raw_field(m, o, 1), s);
    }
}

/// What is decoded of a level is what its bytes say.
pub proof fn law_level_kind(m: Bytes, o: LeanObj, k: LevelKind)
    requires
        level_kind_is(m, o, k),
    ensures
        ({
            let tag = raw_tag(m, o);
            let f0 = raw_field(m, o, 0);
            let f1 = raw_field(m, o, 1);
            &&& o % 2 == 1 ==> k == LevelKind::Zero
            &&& o % 2 == 0 && tag == 1 ==> k == LevelKind::Succ(Level(f0))
            &&& o % 2 == 0 && tag == 2 ==> k == LevelKind::Max(Level(f0), Level(f1))
            &&& o % 2 == 0 && tag == 3 ==> k == LevelKind::IMax(Level(f0), Level(f1))
            &&& o % 2 == 0 && tag == 4 ==> k == LevelKind::Param(Name(f0))
            &&& o % 2 == 0 && (tag == 0 || tag > 4) ==> k == LevelKind::MVar(Name(f0))
        }),
{
    lemma_parts(m, o);
}

/// What is decoded of an expression is what its bytes say.
pub proof fn law_term_kind(
    m: Bytes,
    o: LeanObj,
    bi: BinderInfo,
    nondep: bool,
    s: Seq<char>,
    k: TermKind,
)
    requires
        term_kind_is(m, o, k),
    ensures
        ({
            let tag = raw_tag(m, o);
            let f0 = raw_field(m, o, 0);
            let f1 = raw_field(m, o, 1);
            let f2 = raw_field(m, o, 2);
            let f3 = raw_field(m, o, 3);
            let x = raw_field(m, f0, 0);
            &&& tag == 0 ==> k == TermKind::BVar(Nat(f0))
            &&& tag == 1 ==> k == TermKind::FVar(Name(f0))
            &&& tag == 2 ==> k == TermKind::MVar(Name(f0))
            &&& tag == 3 ==> k == TermKind::Sort(Level(f0))
            &&& tag == 4 ==> k == TermKind::Const(Name(f0), Levels(f1))
            &&& tag == 5 ==> k == TermKind::App(Term(f0), Term(f1))
            &&& tag == 6 && annotates(raw_byte(m, o + 40), bi) ==> k == TermKind::Lambda(
                Name(f0),
                bi,
                Term(f1),
                Term(f2),
            )
            &&& tag == 7 && annotates(raw_byte(m, o + 40), bi) ==> k == TermKind::Pi(
                Name(f0),
                bi,
                Term(f1),
                Term(f2),
            )
            &&& tag == 8 && (raw_byte(m, o + 48) != 0 <==> nondep) ==> k == TermKind::Let(
                Name(f0),
                Term(f1),
                Term(f2),
                Term(f3),
                nondep,
            )
            &&& tag == 9 && raw_tag(m, f0) == 0 ==> k == TermKind::Lit(Lit::Nat(Nat(x)))
            &&& tag == 9 && raw_tag(m, f0) != 0 && lays_text(m, x, s) ==> (
            k matches TermKind::Lit(Lit::Str(u)) && u@ == s)
            &&& tag == 10 ==> k == TermKind::MData(Term(f1))
            &&& tag > 10 ==> k == TermKind::Proj(Name(f0), Nat(f1), Term(f2))
        }),
{
    lemma_parts(m, o);
    lemma_parts(m, raw_field(m, o, 0));
    law_object_parts(m, o, 0, BINDER_INFO_OFFSET as int);
    law_object_parts(m, o, 0, LET_NONDEP_OFFSET as int);
    let x = raw_field(m, raw_field(m, o, 0), 0);
    if lays_text(m, x, s) {
        law_text_layout(m, x, s);
    }
}

} // verus!
