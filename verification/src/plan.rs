//! New objects, as the runtime calls that build them.
//!
//! Only the host's runtime can allocate an object. A [`Build`] says which of
//! its functions to call on what; whoever is linked against the runtime carries
//! it out, inside out. What the object then stands for is a tree again.

use crate::lean_sys::{is_string, scalar, string_of, unboxed, LeanObj};
use crate::memory::Bytes;
use crate::term::{
    binder_info_of, expr_of, is_expr, is_level, is_levels, is_name, is_nat, lemma_level_of,
    lemma_levels_of, lemma_list_of, lemma_name_of, lemma_nat_of, level_of, levels_of, levels_repr,
    name_of, nat_of, ExprTree, LevelTree, NameTree, NatTree,
};
use crate::text::{digit, digits, law_digits, number_of};
use vstd::prelude::*;
use vstd::utf8::{char_u32_cast, encode_scalar, encode_utf8};

verus! {

/// A runtime function that makes an object out of one.
#[derive(Debug, Clone, Copy, PartialEq, Eq, Structural)]
pub enum Fn1 {
    ExprBVar,
    ExprFVar,
    ExprSort,
    ExprLit,
    LevelZero,
    LevelSucc,
    LevelParam,
    /// A constructor object with the given tag.
    Ctor(u32),
}

/// A runtime function that makes an object out of two.
#[derive(Debug, Clone, Copy, PartialEq, Eq, Structural)]
pub enum Fn2 {
    NameStr,
    NameNum,
    ExprConst,
    ExprApp,
    LevelMax,
    LevelIMax,
    /// A constructor object with the given tag.
    Ctor(u32),
}

/// A runtime function that makes an object out of three, with the byte that
/// stands for the binder annotation.
#[derive(Debug, Clone, Copy, PartialEq, Eq, Structural)]
pub enum Fn3 {
    ExprLambda(u8),
    ExprForall(u8),
    ExprProj,
}

/// A runtime function that makes an object out of four, with the byte that
/// stands for a flag.
#[derive(Debug, Clone, Copy, PartialEq, Eq, Structural)]
pub enum Fn4 {
    ExprLet(u8),
}

/// How to come by an object.
#[derive(Debug)]
pub enum Build {
    /// It is there already.
    Object(LeanObj),
    /// A string with this text.
    Str(String),
    /// A natural number, out of a NUL-terminated decimal.
    Nat(String),
    Call1(Fn1, Box<Build>),
    Call2(Fn2, Box<Build>, Box<Build>),
    Call3(Fn3, Box<Build>, Box<Build>, Box<Build>),
    Call4(Fn4, Box<Build>, Box<Build>, Box<Build>, Box<Build>),
}

/// How to come by an object, with its strings as sequences.
pub enum Plan {
    Object(LeanObj),
    Str(Seq<char>),
    Nat(Seq<char>),
    Call1(Fn1, Box<Plan>),
    Call2(Fn2, Box<Plan>, Box<Plan>),
    Call3(Fn3, Box<Plan>, Box<Plan>, Box<Plan>),
    Call4(Fn4, Box<Plan>, Box<Plan>, Box<Plan>, Box<Plan>),
}

impl Build {
    /// The calls, with the strings as sequences.
    pub open spec fn plan(self) -> Plan
        decreases self,
    {
        match self {
            Build::Object(o) => Plan::Object(o),
            Build::Str(s) => Plan::Str(s@),
            Build::Nat(s) => Plan::Nat(s@),
            Build::Call1(f, a) => Plan::Call1(f, Box::new(a.plan())),
            Build::Call2(f, a, b) => Plan::Call2(f, Box::new(a.plan()), Box::new(b.plan())),
            Build::Call3(f, a, b, c) => Plan::Call3(
                f,
                Box::new(a.plan()),
                Box::new(b.plan()),
                Box::new(c.plan()),
            ),
            Build::Call4(f, a, b, c, e) => Plan::Call4(
                f,
                Box::new(a.plan()),
                Box::new(b.plan()),
                Box::new(c.plan()),
                Box::new(e.plan()),
            ),
        }
    }

    /// The call of `f` on `a`.
    pub(crate) fn call1(f: Fn1, a: Build) -> (r: Build)
        ensures
            r.plan() == Plan::Call1(f, Box::new(a.plan())),
    {
        Build::Call1(f, Box::new(a))
    }

    /// The call of `f` on `a` and `b`.
    pub(crate) fn call2(f: Fn2, a: Build, b: Build) -> (r: Build)
        ensures
            r.plan() == Plan::Call2(f, Box::new(a.plan()), Box::new(b.plan())),
    {
        Build::Call2(f, Box::new(a), Box::new(b))
    }

    /// The call of `f` on `a`, `b` and `c`.
    pub(crate) fn call3(f: Fn3, a: Build, b: Build, c: Build) -> (r: Build)
        ensures
            r.plan() == Plan::Call3(
                f,
                Box::new(a.plan()),
                Box::new(b.plan()),
                Box::new(c.plan()),
            ),
    {
        Build::Call3(f, Box::new(a), Box::new(b), Box::new(c))
    }
}

// ---------------------------------------------------------------------------
// What is built
// ---------------------------------------------------------------------------

/// The number that the digit `c` stands for.
pub open spec fn digit_value(c: char) -> nat {
    (c as nat - '0' as nat) as nat
}

/// Whether `s` is a number in decimal.
pub open spec fn is_decimal(s: Seq<char>) -> bool {
    &&& s.len() > 0
    &&& forall|i: int| 0 <= i < s.len() ==> '0' <= #[trigger] s[i] <= '9'
}

/// The number that the digits `s` stand for.
pub open spec fn decimal_value(s: Seq<char>) -> nat
    decreases s.len(),
{
    if s.len() == 0 {
        0
    } else {
        10 * decimal_value(s.drop_last()) + digit_value(s.last())
    }
}

/// The number `v`, stored as the runtime stores it: as a scalar where it fits.
pub open spec fn nat_tree(v: nat) -> NatTree {
    if v <= 0x7fff_ffff_ffff_ffff {
        NatTree::Small(v as u64)
    } else {
        NatTree::Big(v)
    }
}

/// The natural number that `p` builds, where it builds one.
pub open spec fn nat_built(m: Bytes, p: Plan) -> Option<NatTree> {
    match p {
        Plan::Object(o) => if is_nat(m, o) {
            Some(nat_of(m, o))
        } else {
            None
        },
        Plan::Nat(s) => if is_decimal(s) {
            Some(nat_tree(decimal_value(s)))
        } else {
            None
        },
        _ => None,
    }
}

/// The string that `p` builds, where it builds one.
pub open spec fn str_built(m: Bytes, p: Plan) -> Option<Seq<char>> {
    match p {
        Plan::Object(o) => if is_string(m, o) {
            Some(string_of(m, o))
        } else {
            None
        },
        Plan::Str(s) => Some(s),
        _ => None,
    }
}

/// The name that `p` builds, where it builds one.
pub open spec fn name_built(m: Bytes, p: Plan) -> Option<NameTree>
    decreases p,
{
    match p {
        Plan::Object(o) => if is_name(m, o) {
            Some(name_of(m, o))
        } else {
            None
        },
        Plan::Call2(Fn2::NameStr, a, b) => match (name_built(m, *a), str_built(m, *b)) {
            (Some(pre), Some(s)) => Some(NameTree::Str(Box::new(pre), s)),
            _ => None,
        },
        Plan::Call2(Fn2::NameNum, a, b) => match (name_built(m, *a), nat_built(m, *b)) {
            (Some(pre), Some(n)) => Some(NameTree::Num(Box::new(pre), n)),
            _ => None,
        },
        _ => None,
    }
}

/// The level that `p` builds, where it builds one.
pub open spec fn level_built(m: Bytes, p: Plan) -> Option<LevelTree>
    decreases p,
{
    match p {
        Plan::Object(o) => if is_level(m, o) {
            Some(level_of(m, o))
        } else {
            None
        },
        Plan::Call1(Fn1::LevelZero, _) => Some(LevelTree::Zero),
        Plan::Call1(Fn1::LevelSucc, a) => match level_built(m, *a) {
            Some(l) => Some(LevelTree::Succ(Box::new(l))),
            None => None,
        },
        Plan::Call1(Fn1::LevelParam, a) => match name_built(m, *a) {
            Some(n) => Some(LevelTree::Param(n)),
            None => None,
        },
        Plan::Call2(Fn2::LevelMax, a, b) => match (level_built(m, *a), level_built(m, *b)) {
            (Some(x), Some(y)) => Some(LevelTree::Max(Box::new(x), Box::new(y))),
            _ => None,
        },
        Plan::Call2(Fn2::LevelIMax, a, b) => match (level_built(m, *a), level_built(m, *b)) {
            (Some(x), Some(y)) => Some(LevelTree::IMax(Box::new(x), Box::new(y))),
            _ => None,
        },
        _ => None,
    }
}

/// The levels whose list `p` builds, where it builds one.
pub open spec fn levels_built(m: Bytes, p: Plan) -> Option<Seq<LevelTree>>
    decreases p,
{
    match p {
        Plan::Object(o) => if is_levels(m, o) {
            Some(levels_of(m, o))
        } else {
            None
        },
        Plan::Call2(Fn2::Ctor(tag), a, b) => match (level_built(m, *a), levels_built(m, *b)) {
            (Some(head), Some(tail)) => if tag == 1 {
                Some(seq![head] + tail)
            } else {
                None
            },
            _ => None,
        },
        _ => None,
    }
}

/// The expression that `p` builds, where it builds one.
pub open spec fn expr_built(m: Bytes, p: Plan) -> Option<ExprTree>
    decreases p,
{
    match p {
        Plan::Object(o) => if is_expr(m, o) {
            Some(expr_of(m, o))
        } else {
            None
        },
        Plan::Call1(Fn1::ExprBVar, a) => match nat_built(m, *a) {
            Some(i) => Some(ExprTree::BVar(i)),
            None => None,
        },
        Plan::Call1(Fn1::ExprFVar, a) => match *a {
            Plan::Call1(Fn1::Ctor(tag), n) => if tag == 0 && name_built(m, *n) is Some {
                Some(ExprTree::FVar)
            } else {
                None
            },
            _ => None,
        },
        Plan::Call1(Fn1::ExprSort, a) => match level_built(m, *a) {
            Some(l) => Some(ExprTree::Sort(l)),
            None => None,
        },
        Plan::Call1(Fn1::ExprLit, a) => match *a {
            Plan::Call1(Fn1::Ctor(tag), x) => if tag == 0 && nat_built(m, *x) is Some {
                Some(ExprTree::NatLit(nat_built(m, *x)->0))
            } else if tag == 1 && str_built(m, *x) is Some {
                Some(ExprTree::StrLit(str_built(m, *x)->0))
            } else {
                None
            },
            _ => None,
        },
        Plan::Call2(Fn2::ExprConst, a, b) => match (name_built(m, *a), levels_built(m, *b)) {
            (Some(n), Some(ls)) => Some(ExprTree::Const(n, ls)),
            _ => None,
        },
        Plan::Call2(Fn2::ExprApp, a, b) => match (expr_built(m, *a), expr_built(m, *b)) {
            (Some(f), Some(x)) => Some(ExprTree::App(Box::new(f), Box::new(x))),
            _ => None,
        },
        Plan::Call3(Fn3::ExprLambda(bi), a, b, c) => match (
            name_built(m, *a),
            expr_built(m, *b),
            expr_built(m, *c),
        ) {
            (Some(n), Some(ty), Some(body)) => Some(
                ExprTree::Lambda(n, binder_info_of(bi), Box::new(ty), Box::new(body)),
            ),
            _ => None,
        },
        Plan::Call3(Fn3::ExprForall(bi), a, b, c) => match (
            name_built(m, *a),
            expr_built(m, *b),
            expr_built(m, *c),
        ) {
            (Some(n), Some(ty), Some(body)) => Some(
                ExprTree::Pi(n, binder_info_of(bi), Box::new(ty), Box::new(body)),
            ),
            _ => None,
        },
        Plan::Call3(Fn3::ExprProj, a, b, c) => match (
            name_built(m, *a),
            nat_built(m, *b),
            expr_built(m, *c),
        ) {
            (Some(n), Some(i), Some(s)) => Some(ExprTree::Proj(n, i, Box::new(s))),
            _ => None,
        },
        Plan::Call4(Fn4::ExprLet(nondep), a, b, c, e) => match (
            name_built(m, *a),
            expr_built(m, *b),
            expr_built(m, *c),
            expr_built(m, *e),
        ) {
            (Some(n), Some(ty), Some(val), Some(body)) => Some(
                ExprTree::Let(n, Box::new(ty), Box::new(val), Box::new(body), nondep != 0),
            ),
            _ => None,
        },
        _ => None,
    }
}

// ---------------------------------------------------------------------------
// What the builders build
// ---------------------------------------------------------------------------

/// The tagged scalar that carries `n`.
pub open spec fn boxed(n: u64) -> LeanObj
    recommends
        n <= 0x7fff_ffff_ffff_ffff,
{
    (2 * n + 1) as u64
}

/// What was boxed comes out again.
pub proof fn law_unbox_box(n: u64)
    requires
        n <= 0x7fff_ffff_ffff_ffff,
    ensures
        scalar(boxed(n)),
        unboxed(boxed(n)) == n,
{
}

/// The text that arrives where `s` is passed as a NUL-terminated string: none
/// of it where a NUL stands in it.
pub open spec fn c_text(s: Seq<char>) -> Seq<char> {
    if s.contains('\0') {
        seq![]
    } else {
        s
    }
}

/// The calls that build the string `s`.
pub open spec fn string_plan(s: Seq<char>) -> Plan {
    Plan::Str(s)
}

/// The calls that build the natural number with the decimal `s`.
pub open spec fn decimal_plan(s: Seq<char>) -> Plan {
    Plan::Nat(c_text(s))
}

/// The calls that build the natural number `n`.
pub open spec fn nat_plan(n: u64) -> Plan {
    if n <= 0x7fff_ffff_ffff_ffff {
        Plan::Object(boxed(n))
    } else {
        decimal_plan(digits(n as nat, 10))
    }
}

/// The calls that build the name with the given components.
pub open spec fn name_plan(parts: Seq<Seq<char>>) -> Plan
    decreases parts.len(),
{
    if parts.len() == 0 {
        Plan::Object(1)
    } else {
        Plan::Call2(
            Fn2::NameStr,
            Box::new(name_plan(parts.drop_last())),
            Box::new(string_plan(parts.last())),
        )
    }
}

/// The name with the given components.
pub open spec fn dotted(parts: Seq<Seq<char>>) -> NameTree
    decreases parts.len(),
{
    if parts.len() == 0 {
        NameTree::Anon
    } else {
        NameTree::Str(Box::new(dotted(parts.drop_last())), parts.last())
    }
}

proof fn lemma_digits_value(n: nat)
    ensures
        is_decimal(digits(n, 10)),
        decimal_value(digits(n, 10)) == n,
    decreases n,
{
    let s = digits(n, 10);
    if n < 10 {
        assert(s.drop_last() =~= seq![]);
        assert(decimal_value(s.drop_last()) == 0);
        assert(digit_value(digit(n)) == n);
    } else {
        lemma_digits_value(n / 10);
        let high = digits(n / 10, 10);
        assert(s.drop_last() =~= high);
        assert(digit_value(digit(n % 10)) == n % 10);
        assert('0' <= digit(n % 10) <= '9');
        assert forall|i: int| 0 <= i < s.len() implies '0' <= #[trigger] s[i] <= '9' by {
            if i < high.len() {
                assert(s[i] == high[i]);
            }
        }
    }
}

proof fn lemma_scalar_nul(v: u32)
    ensures
        encode_scalar(v).contains(0u8) <==> v == 0,
{
    let s = encode_scalar(v);
    assert(v <= 0x7f ==> ((v & 0x7f) as u8 == 0u8 <==> v == 0)) by (bit_vector);
    assert(forall|x: u8| (0xC0u8 | x) != 0u8) by (bit_vector);
    assert(forall|x: u8| (0xE0u8 | x) != 0u8) by (bit_vector);
    assert(forall|x: u8| (0xF0u8 | x) != 0u8) by (bit_vector);
    assert(forall|x: u8| (0x80u8 | x) != 0u8) by (bit_vector);
    if v == 0 {
        assert(s[0] == 0u8);
    } else {
        assert forall|i: int| 0 <= i < s.len() implies s[i] != 0u8 by {}
    }
}

/// A NUL stands among the bytes of a text exactly where it stands in the text.
pub proof fn lemma_nul(s: Seq<char>)
    ensures
        encode_utf8(s).contains(0u8) <==> s.contains('\0'),
    decreases s.len(),
{
    if s.len() > 0 {
        let a = encode_scalar(s[0] as u32);
        let b = encode_utf8(s.drop_first());
        lemma_nul(s.drop_first());
        lemma_scalar_nul(s[0] as u32);
        assert(encode_utf8(s) == a + b);
        if (a + b).contains(0u8) {
            let k = (a + b).index_of(0u8);
            if k < a.len() {
                assert(a[k] == 0u8);
                char_u32_cast(s[0], 0u32);
                assert(s[0] == '\0');
            } else {
                assert(b[k - a.len()] == 0u8);
                let j = s.drop_first().index_of('\0');
                assert(s[j + 1] == '\0');
            }
        }
        if s.contains('\0') {
            let k = s.index_of('\0');
            if k == 0 {
                assert((a + b)[a.index_of(0u8)] == 0u8);
            } else {
                assert(s.drop_first()[k - 1] == '\0');
                assert((a + b)[a.len() + b.index_of(0u8)] == 0u8);
            }
        }
    }
}

/// A decimal arrives whole.
proof fn lemma_decimal_text(s: Seq<char>)
    requires
        is_decimal(s),
    ensures
        c_text(s) == s,
{
    if s.contains('\0') {
        let k = s.index_of('\0');
        assert('0' <= s[k]);
    }
}

/// The calls for a natural number build that number, small or big.
pub proof fn law_nat_built(m: Bytes, n: u64)
    ensures
        nat_built(m, nat_plan(n)) == Some(nat_tree(n as nat)),
{
    if n <= 0x7fff_ffff_ffff_ffff {
        law_unbox_box(n);
        lemma_nat_of(m, boxed(n), NatTree::Small(n));
    } else {
        lemma_digits_value(n as nat);
        lemma_decimal_text(digits(n as nat, 10));
    }
}

/// The calls for a decimal build the number that it stands for.
pub proof fn law_decimal_built(m: Bytes, s: Seq<char>)
    requires
        is_decimal(s),
    ensures
        nat_built(m, decimal_plan(s)) == Some(nat_tree(decimal_value(s))),
{
    lemma_decimal_text(s);
}

/// The scalar zero is the anonymous name, the empty list of levels, and the
/// level zero.
pub proof fn law_nil_built(m: Bytes)
    ensures
        name_built(m, Plan::Object(1)) == Some(NameTree::Anon),
        levels_built(m, Plan::Object(1)) == Some(Seq::<LevelTree>::empty()),
        level_built(m, Plan::Object(1)) == Some(LevelTree::Zero),
{
    lemma_name_of(m, 1, NameTree::Anon);
    lemma_level_of(m, 1, LevelTree::Zero);
    lemma_list_of(m, 1, seq![]);
    assert(levels_repr(m, 1, seq![]));
    lemma_levels_of(m, 1, seq![]);
}

/// The calls for a dotted name build the name with those components.
pub proof fn law_name_built(m: Bytes, parts: Seq<Seq<char>>)
    ensures
        name_built(m, name_plan(parts)) == Some(dotted(parts)),
    decreases parts.len(),
{
    if parts.len() == 0 {
        law_nil_built(m);
    } else {
        law_name_built(m, parts.drop_last());
    }
}

/// The calls for literals build those literals.
pub proof fn law_literals_built(m: Bytes, decimal: Seq<char>, s: Seq<char>)
    ensures
        is_decimal(decimal) ==> expr_built(
            m,
            Plan::Call1(
                Fn1::ExprLit,
                Box::new(Plan::Call1(Fn1::Ctor(0), Box::new(decimal_plan(decimal)))),
            ),
        ) == Some(ExprTree::NatLit(nat_tree(decimal_value(decimal)))),
        expr_built(
            m,
            Plan::Call1(
                Fn1::ExprLit,
                Box::new(Plan::Call1(Fn1::Ctor(1), Box::new(string_plan(s)))),
            ),
        ) == Some(ExprTree::StrLit(s)),
{
    if is_decimal(decimal) {
        law_decimal_built(m, decimal);
    }
}

/// The calls for a list of levels build that list, head first.
pub proof fn law_list_built(m: Bytes, head: Plan, tail: Plan, l: LevelTree, ls: Seq<LevelTree>)
    requires
        level_built(m, head) == Some(l),
        levels_built(m, tail) == Some(ls),
    ensures
        levels_built(m, Plan::Call2(Fn2::Ctor(1), Box::new(head), Box::new(tail))) == Some(
            seq![l] + ls,
        ),
{
}

/// The components of the name `t`, from its root on, where all are strings.
pub open spec fn components(t: NameTree) -> Option<Seq<Seq<char>>>
    decreases t,
{
    match t {
        NameTree::Anon => Some(seq![]),
        NameTree::Str(pre, s) => match components(*pre) {
            Some(parts) => Some(parts.push(s)),
            None => None,
        },
        NameTree::Num(_, _) => None,
    }
}

/// The calls for a dotted name build a name with exactly those components, in
/// order.
pub proof fn law_name_components(m: Bytes, parts: Seq<Seq<char>>)
    ensures
        name_built(m, name_plan(parts)) matches Some(t) && components(t) == Some(parts),
    decreases parts.len(),
{
    law_name_built(m, parts);
    if parts.len() > 0 {
        law_name_components(m, parts.drop_last());
        law_name_built(m, parts.drop_last());
        assert(parts.drop_last().push(parts.last()) =~= parts);
    } else {
        assert(parts =~= seq![]);
    }
}

/// A small natural number is the scalar with the lowest bit set above it, and
/// a big one is built out of its digits.
pub proof fn law_nat_calls(n: u64)
    ensures
        n < 0x8000_0000_0000_0000 ==> nat_plan(n) == Plan::Object((2 * n + 1) as u64),
        n >= 0x8000_0000_0000_0000 ==> (nat_plan(n) matches Plan::Nat(s) && number_of(s, 10) == n
            && s.len() > 0 && s[0] != '0'),
{
    if n >= 0x8000_0000_0000_0000 {
        lemma_digits_value(n as nat);
        lemma_decimal_text(digits(n as nat, 10));
        law_digits(n as nat, 10);
    }
}

/// A text without a NUL arrives whole, and one with a NUL does not arrive; a
/// string is built out of all of its text either way.
pub proof fn law_text_arrives(m: Bytes, s: Seq<char>)
    ensures
        (forall|i: int| 0 <= i < s.len() ==> #[trigger] s[i] != '\0') ==> c_text(s) == s,
        (exists|i: int| 0 <= i < s.len() && #[trigger] s[i] == '\0') ==> c_text(s).len() == 0,
        decimal_plan(s) == Plan::Nat(c_text(s)),
        str_built(m, string_plan(s)) == Some(s),
{
}

/// The calls of a build are those that it holds, with their arguments in order.
pub proof fn law_plan_of_build(b: Build)
    ensures
        match b {
            Build::Object(o) => b.plan() == Plan::Object(o),
            Build::Str(s) => b.plan() == Plan::Str(s@),
            Build::Nat(s) => b.plan() == Plan::Nat(s@),
            Build::Call1(f, x) => b.plan() matches Plan::Call1(g, p) && g == f && *p == x.plan(),
            Build::Call2(f, x, y) => b.plan() matches Plan::Call2(g, p, q) && g == f && *p
                == x.plan() && *q == y.plan(),
            Build::Call3(f, x, y, z) => b.plan() matches Plan::Call3(g, p, q, r) && g == f && *p
                == x.plan() && *q == y.plan() && *r == z.plan(),
            Build::Call4(f, x, y, z, w) => b.plan() matches Plan::Call4(g, p, q, r, s) && g == f
                && *p == x.plan() && *q == y.plan() && *r == z.plan() && *s == w.plan(),
        },
{
}

} // verus!
