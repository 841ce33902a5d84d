//! Typed, read-only views over the host's kernel objects.
//!
//! A [`Term`] is the address of a kernel expression; [`Term::kind`] decodes it
//! into a [`TermKind`] that carries views of its children. The other wrappers
//! cover what can be reached from an expression: [`Level`], [`Levels`] (a list
//! of levels), [`Name`] and [`Nat`].
//!
//! What an object stands for is a tree: [`NameTree`], [`LevelTree`],
//! [`ExprTree`]. A live object is one that stands for such a tree. Shared
//! children are shared in memory and repeated in the tree.

use crate::lean_sys::{
    ctor_get, ctor_get_uint8, has_scalars, has_slot, has_slots, has_tag, is_scalar, is_string,
    mpz_limbs, mpz_readable, nat_as_usize, ptr_tag, scalar, scalar_u8, slot, string_of, string_str,
    tag_of, unboxed, LeanObj,
};
use crate::big::limbs_value;
use crate::memory::{Bytes, Memory};
use vstd::prelude::*;

verus! {

/// Bytes in an object field.
pub const PTR: u64 = 8;

/// Bytes in the scalar data word that follows the object fields of an
/// expression; `u8` flags follow that word.
pub const DATA_WORD: u64 = 8;

/// Where the binder annotation of a lambda or pi lies among its scalars.
pub const BINDER_INFO_OFFSET: u64 = 32;

/// Where the non-dependence flag of a let lies among its scalars.
pub const LET_NONDEP_OFFSET: u64 = 40;

// ---------------------------------------------------------------------------
// Binder annotations
// ---------------------------------------------------------------------------

/// Binder annotation: the brackets used to write a binder.
#[derive(Debug, Clone, Copy, PartialEq, Eq, Structural)]
pub enum BinderInfo {
    Default,
    Implicit,
    StrictImplicit,
    InstImplicit,
}

/// The annotation that the byte `b` stands for.
pub open spec fn binder_info_of(b: u8) -> BinderInfo {
    if b == 0 {
        BinderInfo::Default
    } else if b == 1 {
        BinderInfo::Implicit
    } else if b == 2 {
        BinderInfo::StrictImplicit
    } else {
        BinderInfo::InstImplicit
    }
}

impl BinderInfo {
    /// Decodes the byte that an expression stores.
    pub fn from_u8(b: u8) -> (r: Self)
        ensures
            r == binder_info_of(b),
    {
        match b {
            0 => BinderInfo::Default,
            1 => BinderInfo::Implicit,
            2 => BinderInfo::StrictImplicit,
            _ => BinderInfo::InstImplicit,
        }
    }
}

// ---------------------------------------------------------------------------
// What objects stand for
// ---------------------------------------------------------------------------

/// A natural number, with the way in which it is stored.
pub enum NatTree {
    /// A tagged scalar.
    Small(u64),
    /// A heap object.
    Big(nat),
}

impl NatTree {
    /// The number.
    pub open spec fn value(self) -> nat {
        match self {
            NatTree::Small(v) => v as nat,
            NatTree::Big(v) => v,
        }
    }
}

/// A hierarchical name.
pub enum NameTree {
    Anon,
    Str(Box<NameTree>, Seq<char>),
    Num(Box<NameTree>, NatTree),
}

/// A universe level.
pub enum LevelTree {
    Zero,
    Succ(Box<LevelTree>),
    Max(Box<LevelTree>, Box<LevelTree>),
    IMax(Box<LevelTree>, Box<LevelTree>),
    Param(NameTree),
    MVar,
}

/// An expression.
pub enum ExprTree {
    BVar(NatTree),
    FVar,
    MVar,
    Sort(LevelTree),
    Const(NameTree, Seq<LevelTree>),
    App(Box<ExprTree>, Box<ExprTree>),
    Lambda(NameTree, BinderInfo, Box<ExprTree>, Box<ExprTree>),
    Pi(NameTree, BinderInfo, Box<ExprTree>, Box<ExprTree>),
    Let(NameTree, Box<ExprTree>, Box<ExprTree>, Box<ExprTree>, bool),
    NatLit(NatTree),
    StrLit(Seq<char>),
    MData(Box<ExprTree>),
    Proj(NameTree, NatTree, Box<ExprTree>),
}

/// Whether the object `o` stands for the number `n`.
pub open spec fn nat_repr(m: Bytes, o: LeanObj, n: NatTree) -> bool {
    match n {
        NatTree::Small(v) => scalar(o) && v == unboxed(o),
        NatTree::Big(v) => !scalar(o) && mpz_readable(m, o) && v == limbs_value(mpz_limbs(m, o)),
    }
}

/// Whether the object `o` stands for the name `t`.
pub open spec fn name_repr(m: Bytes, o: LeanObj, t: NameTree) -> bool
    decreases t,
{
    match t {
        NameTree::Anon => scalar(o),
        NameTree::Str(pre, s) => {
            &&& !scalar(o) && has_tag(m, o) && tag_of(m, o) == 1
            &&& has_slots(m, o, 2)
            &&& name_repr(m, slot(m, o, 0), *pre)
            &&& is_string(m, slot(m, o, 1)) && s == string_of(m, slot(m, o, 1))
        },
        NameTree::Num(pre, n) => {
            &&& !scalar(o) && has_tag(m, o) && tag_of(m, o) != 1
            &&& has_slots(m, o, 2)
            &&& name_repr(m, slot(m, o, 0), *pre)
            &&& nat_repr(m, slot(m, o, 1), n)
        },
    }
}

/// Whether the object `o` stands for the level `t`.
pub open spec fn level_repr(m: Bytes, o: LeanObj, t: LevelTree) -> bool
    decreases t,
{
    match t {
        LevelTree::Zero => scalar(o),
        LevelTree::Succ(a) => {
            &&& !scalar(o) && has_tag(m, o) && tag_of(m, o) == 1
            &&& has_slots(m, o, 1)
            &&& level_repr(m, slot(m, o, 0), *a)
        },
        LevelTree::Max(a, b) => {
            &&& !scalar(o) && has_tag(m, o) && tag_of(m, o) == 2
            &&& has_slots(m, o, 2)
            &&& level_repr(m, slot(m, o, 0), *a)
            &&& level_repr(m, slot(m, o, 1), *b)
        },
        LevelTree::IMax(a, b) => {
            &&& !scalar(o) && has_tag(m, o) && tag_of(m, o) == 3
            &&& has_slots(m, o, 2)
            &&& level_repr(m, slot(m, o, 0), *a)
            &&& level_repr(m, slot(m, o, 1), *b)
        },
        LevelTree::Param(n) => {
            &&& !scalar(o) && has_tag(m, o) && tag_of(m, o) == 4
            &&& has_slots(m, o, 1)
            &&& name_repr(m, slot(m, o, 0), n)
        },
        LevelTree::MVar => {
            &&& !scalar(o) && has_tag(m, o)
            &&& tag_of(m, o) == 0 || tag_of(m, o) > 4
            &&& has_slots(m, o, 1)
        },
    }
}

/// Whether the object `o` is a list whose cells hold the objects `s`, in order.
pub open spec fn list_repr(m: Bytes, o: LeanObj, s: Seq<LeanObj>) -> bool
    decreases s.len(),
{
    if s.len() == 0 {
        scalar(o)
    } else {
        &&& !scalar(o)
        &&& has_slots(m, o, 2)
        &&& s[0] == slot(m, o, 0)
        &&& list_repr(m, slot(m, o, 1), s.drop_first())
    }
}

/// Whether the object `o` is a list of levels that stand for `ls`, in order.
pub open spec fn levels_repr(m: Bytes, o: LeanObj, ls: Seq<LevelTree>) -> bool {
    &&& is_list(m, o)
    &&& list_of(m, o).len() == ls.len()
    &&& forall|i: int| 0 <= i < ls.len() ==> level_repr(m, #[trigger] list_of(m, o)[i], ls[i])
}

/// Whether the object `o` is an expression node with constructor tag `tag`
/// whose first `n` object fields can be read.
pub open spec fn expr_head(m: Bytes, o: LeanObj, tag: u8, n: int) -> bool {
    has_tag(m, o) && tag_of(m, o) == tag && has_slots(m, o, n)
}

/// Whether the object `o` stands for the expression `t`.
pub open spec fn expr_repr(m: Bytes, o: LeanObj, t: ExprTree) -> bool
    decreases t,
{
    match t {
        ExprTree::BVar(i) => expr_head(m, o, 0, 1) && nat_repr(m, slot(m, o, 0), i),
        ExprTree::FVar => expr_head(m, o, 1, 1),
        ExprTree::MVar => expr_head(m, o, 2, 1),
        ExprTree::Sort(l) => expr_head(m, o, 3, 1) && level_repr(m, slot(m, o, 0), l),
        ExprTree::Const(n, ls) => {
            &&& expr_head(m, o, 4, 2)
            &&& name_repr(m, slot(m, o, 0), n)
            &&& levels_repr(m, slot(m, o, 1), ls)
        },
        ExprTree::App(f, a) => {
            &&& expr_head(m, o, 5, 2)
            &&& expr_repr(m, slot(m, o, 0), *f)
            &&& expr_repr(m, slot(m, o, 1), *a)
        },
        ExprTree::Lambda(n, bi, ty, body) => {
            &&& expr_head(m, o, 6, 3)
            &&& has_scalars(m, o, BINDER_INFO_OFFSET as int, 1)
            &&& name_repr(m, slot(m, o, 0), n)
            &&& bi == binder_info_of(scalar_u8(m, o, BINDER_INFO_OFFSET as int))
            &&& expr_repr(m, slot(m, o, 1), *ty)
            &&& expr_repr(m, slot(m, o, 2), *body)
        },
        ExprTree::Pi(n, bi, ty, body) => {
            &&& expr_head(m, o, 7, 3)
            &&& has_scalars(m, o, BINDER_INFO_OFFSET as int, 1)
            &&& name_repr(m, slot(m, o, 0), n)
            &&& bi == binder_info_of(scalar_u8(m, o, BINDER_INFO_OFFSET as int))
            &&& expr_repr(m, slot(m, o, 1), *ty)
            &&& expr_repr(m, slot(m, o, 2), *body)
        },
        ExprTree::Let(n, ty, val, body, nondep) => {
            &&& expr_head(m, o, 8, 4)
            &&& has_scalars(m, o, LET_NONDEP_OFFSET as int, 1)
            &&& name_repr(m, slot(m, o, 0), n)
            &&& expr_repr(m, slot(m, o, 1), *ty)
            &&& expr_repr(m, slot(m, o, 2), *val)
            &&& expr_repr(m, slot(m, o, 3), *body)
            &&& nondep == (scalar_u8(m, o, LET_NONDEP_OFFSET as int) != 0)
        },
        ExprTree::NatLit(n) => {
            let lit = slot(m, o, 0);
            &&& expr_head(m, o, 9, 1)
            &&& has_tag(m, lit) && tag_of(m, lit) == 0 && has_slot(m, lit, 0)
            &&& nat_repr(m, slot(m, lit, 0), n)
        },
        ExprTree::StrLit(s) => {
            let lit = slot(m, o, 0);
            &&& expr_head(m, o, 9, 1)
            &&& has_tag(m, lit) && tag_of(m, lit) != 0 && has_slot(m, lit, 0)
            &&& is_string(m, slot(m, lit, 0)) && s == string_of(m, slot(m, lit, 0))
        },
        ExprTree::MData(e) => {
            &&& expr_head(m, o, 10, 2)
            &&& expr_repr(m, slot(m, o, 1), *e)
        },
        ExprTree::Proj(n, i, e) => {
            &&& has_tag(m, o) && tag_of(m, o) > 10
            &&& has_slots(m, o, 3)
            &&& name_repr(m, slot(m, o, 0), n)
            &&& nat_repr(m, slot(m, o, 1), i)
            &&& expr_repr(m, slot(m, o, 2), *e)
        },
    }
}

/// Whether `o` is a live natural number.
pub open spec fn is_nat(m: Bytes, o: LeanObj) -> bool {
    exists|n: NatTree| nat_repr(m, o, n)
}

/// The number that `o` stands for.
pub open spec fn nat_of(m: Bytes, o: LeanObj) -> NatTree {
    choose|n: NatTree| nat_repr(m, o, n)
}

/// Whether `o` is a live name.
#[verifier::opaque]
pub open spec fn is_name(m: Bytes, o: LeanObj) -> bool {
    exists|t: NameTree| name_repr(m, o, t)
}

/// The name that `o` stands for.
pub open spec fn name_of(m: Bytes, o: LeanObj) -> NameTree {
    choose|t: NameTree| name_repr(m, o, t)
}

/// Whether `o` is a live level.
#[verifier::opaque]
pub open spec fn is_level(m: Bytes, o: LeanObj) -> bool {
    exists|t: LevelTree| level_repr(m, o, t)
}

/// The level that `o` stands for.
pub open spec fn level_of(m: Bytes, o: LeanObj) -> LevelTree {
    choose|t: LevelTree| level_repr(m, o, t)
}

/// Whether `o` is a live list, of objects of any kind.
pub open spec fn is_list(m: Bytes, o: LeanObj) -> bool {
    exists|s: Seq<LeanObj>| list_repr(m, o, s)
}

/// The objects that the cells of the list `o` hold, in order.
pub open spec fn list_of(m: Bytes, o: LeanObj) -> Seq<LeanObj> {
    choose|s: Seq<LeanObj>| list_repr(m, o, s)
}

/// Whether `o` is a live list of levels.
pub open spec fn is_levels(m: Bytes, o: LeanObj) -> bool {
    exists|ls: Seq<LevelTree>| levels_repr(m, o, ls)
}

/// The levels that the list `o` stands for.
pub open spec fn levels_of(m: Bytes, o: LeanObj) -> Seq<LevelTree> {
    Seq::new(list_of(m, o).len(), |i: int| level_of(m, list_of(m, o)[i]))
}

/// Whether `o` is a live list of names.
pub open spec fn is_names(m: Bytes, o: LeanObj) -> bool {
    &&& is_list(m, o)
    &&& forall|i: int| 0 <= i < list_of(m, o).len() ==> is_name(m, #[trigger] list_of(m, o)[i])
}

/// The names that the list `o` stands for.
pub open spec fn names_of(m: Bytes, o: LeanObj) -> Seq<NameTree> {
    list_of(m, o).map_values(|n: LeanObj| name_of(m, n))
}

/// Whether `o` is a live expression.
#[verifier::opaque]
pub open spec fn is_expr(m: Bytes, o: LeanObj) -> bool {
    exists|t: ExprTree| expr_repr(m, o, t)
}

/// The expression that `o` stands for.
pub open spec fn expr_of(m: Bytes, o: LeanObj) -> ExprTree {
    choose|t: ExprTree| expr_repr(m, o, t)
}

/// An object stands for one number only.
pub proof fn lemma_nat_of(m: Bytes, o: LeanObj, n: NatTree)
    requires
        nat_repr(m, o, n),
    ensures
        is_nat(m, o),
        nat_of(m, o) == n,
{
    assert(nat_repr(m, o, nat_of(m, o)));
}

proof fn lemma_name_unique(m: Bytes, o: LeanObj, t: NameTree, u: NameTree)
    requires
        name_repr(m, o, t),
        name_repr(m, o, u),
    ensures
        t == u,
    decreases t,
{
    match (t, u) {
        (NameTree::Str(p, _), NameTree::Str(q, _)) => {
            lemma_name_unique(m, slot(m, o, 0), *p, *q);
        },
        (NameTree::Num(p, a), NameTree::Num(q, b)) => {
            lemma_name_unique(m, slot(m, o, 0), *p, *q);
            lemma_nat_of(m, slot(m, o, 1), a);
            lemma_nat_of(m, slot(m, o, 1), b);
        },
        _ => {},
    }
}

/// An object stands for one name only.
pub proof fn lemma_name_of(m: Bytes, o: LeanObj, t: NameTree)
    requires
        name_repr(m, o, t),
    ensures
        is_name(m, o),
        name_of(m, o) == t,
{
    reveal(is_name);
    lemma_name_unique(m, o, t, name_of(m, o));
}

proof fn lemma_level_unique(m: Bytes, o: LeanObj, t: LevelTree, u: LevelTree)
    requires
        level_repr(m, o, t),
        level_repr(m, o, u),
    ensures
        t == u,
    decreases t,
{
    match (t, u) {
        (LevelTree::Succ(a), LevelTree::Succ(b)) => {
            lemma_level_unique(m, slot(m, o, 0), *a, *b);
        },
        (LevelTree::Max(a, c), LevelTree::Max(b, d)) => {
            lemma_level_unique(m, slot(m, o, 0), *a, *b);
            lemma_level_unique(m, slot(m, o, 1), *c, *d);
        },
        (LevelTree::IMax(a, c), LevelTree::IMax(b, d)) => {
            lemma_level_unique(m, slot(m, o, 0), *a, *b);
            lemma_level_unique(m, slot(m, o, 1), *c, *d);
        },
        (LevelTree::Param(a), LevelTree::Param(b)) => {
            lemma_name_unique(m, slot(m, o, 0), a, b);
        },
        _ => {},
    }
}

/// An object stands for one level only.
pub proof fn lemma_level_of(m: Bytes, o: LeanObj, t: LevelTree)
    requires
        level_repr(m, o, t),
    ensures
        is_level(m, o),
        level_of(m, o) == t,
{
    reveal(is_level);
    lemma_level_unique(m, o, t, level_of(m, o));
}

proof fn lemma_list_unique(m: Bytes, o: LeanObj, s: Seq<LeanObj>, u: Seq<LeanObj>)
    requires
        list_repr(m, o, s),
        list_repr(m, o, u),
    ensures
        s == u,
    decreases s.len(),
{
    if s.len() > 0 && u.len() > 0 {
        lemma_list_unique(m, slot(m, o, 1), s.drop_first(), u.drop_first());
        assert(s =~= seq![s[0]] + s.drop_first());
        assert(u =~= seq![u[0]] + u.drop_first());
    } else {
        assert(s =~= u);
    }
}

/// An object is the list of one sequence of objects only.
pub proof fn lemma_list_of(m: Bytes, o: LeanObj, s: Seq<LeanObj>)
    requires
        list_repr(m, o, s),
    ensures
        is_list(m, o),
        list_of(m, o) == s,
{
    lemma_list_unique(m, o, s, list_of(m, o));
}

/// An object is the list of one sequence of levels only.
pub proof fn lemma_levels_of(m: Bytes, o: LeanObj, ls: Seq<LevelTree>)
    requires
        levels_repr(m, o, ls),
    ensures
        is_levels(m, o),
        levels_of(m, o) == ls,
        forall|i: int| 0 <= i < ls.len() ==> is_level(m, #[trigger] list_of(m, o)[i]),
{
    assert forall|i: int| 0 <= i < ls.len() implies is_level(m, #[trigger] list_of(m, o)[i])
        && level_of(m, list_of(m, o)[i]) == ls[i] by {
        lemma_level_of(m, list_of(m, o)[i], ls[i]);
    }
    assert(levels_of(m, o) =~= ls);
}

proof fn lemma_expr_unique(m: Bytes, o: LeanObj, t: ExprTree, u: ExprTree)
    requires
        expr_repr(m, o, t),
        expr_repr(m, o, u),
    ensures
        t == u,
    decreases t,
{
    match (t, u) {
        (ExprTree::BVar(a), ExprTree::BVar(b)) => {
            lemma_nat_of(m, slot(m, o, 0), a);
            lemma_nat_of(m, slot(m, o, 0), b);
        },
        (ExprTree::Sort(a), ExprTree::Sort(b)) => {
            lemma_level_unique(m, slot(m, o, 0), a, b);
        },
        (ExprTree::Const(n, ls), ExprTree::Const(k, us)) => {
            lemma_name_unique(m, slot(m, o, 0), n, k);
            lemma_levels_of(m, slot(m, o, 1), ls);
            lemma_levels_of(m, slot(m, o, 1), us);
        },
        (ExprTree::App(f, a), ExprTree::App(g, b)) => {
            lemma_expr_unique(m, slot(m, o, 0), *f, *g);
            lemma_expr_unique(m, slot(m, o, 1), *a, *b);
        },
        (ExprTree::Lambda(n, _, ty, body), ExprTree::Lambda(k, _, uty, ubody)) => {
            lemma_name_unique(m, slot(m, o, 0), n, k);
            lemma_expr_unique(m, slot(m, o, 1), *ty, *uty);
            lemma_expr_unique(m, slot(m, o, 2), *body, *ubody);
        },
        (ExprTree::Pi(n, _, ty, body), ExprTree::Pi(k, _, uty, ubody)) => {
            lemma_name_unique(m, slot(m, o, 0), n, k);
            lemma_expr_unique(m, slot(m, o, 1), *ty, *uty);
            lemma_expr_unique(m, slot(m, o, 2), *body, *ubody);
        },
        (ExprTree::Let(n, ty, v, body, _), ExprTree::Let(k, uty, uv, ubody, _)) => {
            lemma_name_unique(m, slot(m, o, 0), n, k);
            lemma_expr_unique(m, slot(m, o, 1), *ty, *uty);
            lemma_expr_unique(m, slot(m, o, 2), *v, *uv);
            lemma_expr_unique(m, slot(m, o, 3), *body, *ubody);
        },
        (ExprTree::NatLit(a), ExprTree::NatLit(b)) => {
            lemma_nat_of(m, slot(m, slot(m, o, 0), 0), a);
            lemma_nat_of(m, slot(m, slot(m, o, 0), 0), b);
        },
        (ExprTree::MData(a), ExprTree::MData(b)) => {
            lemma_expr_unique(m, slot(m, o, 1), *a, *b);
        },
        (ExprTree::Proj(n, i, e), ExprTree::Proj(k, j, ue)) => {
            lemma_name_unique(m, slot(m, o, 0), n, k);
            lemma_nat_of(m, slot(m, o, 1), i);
            lemma_nat_of(m, slot(m, o, 1), j);
            lemma_expr_unique(m, slot(m, o, 2), *e, *ue);
        },
        _ => {},
    }
}

/// An object stands for one expression only.
pub proof fn lemma_expr_of(m: Bytes, o: LeanObj, t: ExprTree)
    requires
        expr_repr(m, o, t),
    ensures
        is_expr(m, o),
        expr_of(m, o) == t,
{
    reveal(is_expr);
    lemma_expr_unique(m, o, t, expr_of(m, o));
}

/// What a live number is, by the way in which it is stored.
pub proof fn lemma_nat_parts(m: Bytes, o: LeanObj)
    requires
        is_nat(m, o),
    ensures
        scalar(o) ==> nat_of(m, o) == NatTree::Small(unboxed(o)),
        !scalar(o) ==> mpz_readable(m, o) && nat_of(m, o) == NatTree::Big(
            limbs_value(mpz_limbs(m, o)),
        ),
{
    assert(nat_repr(m, o, nat_of(m, o)));
}

/// What a live name is, by its outermost constructor.
pub proof fn lemma_name_parts(m: Bytes, o: LeanObj)
    requires
        is_name(m, o),
    ensures
        name_node(m, o),
        scalar(o) ==> name_of(m, o) == NameTree::Anon,
        !scalar(o) ==> is_name(m, slot(m, o, 0)),
        !scalar(o) && tag_of(m, o) == 1 ==> name_of(m, o) == NameTree::Str(
            Box::new(name_of(m, slot(m, o, 0))),
            string_of(m, slot(m, o, 1)),
        ),
        !scalar(o) && tag_of(m, o) != 1 ==> is_nat(m, slot(m, o, 1)) && name_of(m, o)
            == NameTree::Num(
            Box::new(name_of(m, slot(m, o, 0))),
            nat_of(m, slot(m, o, 1)),
        ),
{
    let t = name_of(m, o);
    reveal(is_name);
    assert(name_repr(m, o, t));
    match t {
        NameTree::Anon => {},
        NameTree::Str(pre, _) => {
            lemma_name_of(m, slot(m, o, 0), *pre);
        },
        NameTree::Num(pre, n) => {
            lemma_name_of(m, slot(m, o, 0), *pre);
            lemma_nat_of(m, slot(m, o, 1), n);
        },
    }
}

/// What a live level is, by its outermost constructor.
pub proof fn lemma_level_parts(m: Bytes, o: LeanObj)
    requires
        is_level(m, o),
    ensures
        level_node(m, o),
        scalar(o) ==> level_of(m, o) == LevelTree::Zero,
        !scalar(o) && tag_of(m, o) == 1 ==> is_level(m, slot(m, o, 0)) && level_of(m, o)
            == LevelTree::Succ(Box::new(level_of(m, slot(m, o, 0)))),
        !scalar(o) && tag_of(m, o) == 2 ==> is_level(m, slot(m, o, 0)) && is_level(
            m,
            slot(m, o, 1),
        ) && level_of(m, o) == LevelTree::Max(
            Box::new(level_of(m, slot(m, o, 0))),
            Box::new(level_of(m, slot(m, o, 1))),
        ),
        !scalar(o) && tag_of(m, o) == 3 ==> is_level(m, slot(m, o, 0)) && is_level(
            m,
            slot(m, o, 1),
        ) && level_of(m, o) == LevelTree::IMax(
            Box::new(level_of(m, slot(m, o, 0))),
            Box::new(level_of(m, slot(m, o, 1))),
        ),
        !scalar(o) && tag_of(m, o) == 4 ==> is_name(m, slot(m, o, 0)) && level_of(m, o)
            == LevelTree::Param(name_of(m, slot(m, o, 0))),
        !scalar(o) && (tag_of(m, o) == 0 || tag_of(m, o) > 4) ==> level_of(m, o) == LevelTree::MVar,
{
    let t = level_of(m, o);
    reveal(is_level);
    assert(level_repr(m, o, t));
    match t {
        LevelTree::Succ(a) => {
            lemma_level_of(m, slot(m, o, 0), *a);
        },
        LevelTree::Max(a, b) => {
            lemma_level_of(m, slot(m, o, 0), *a);
            lemma_level_of(m, slot(m, o, 1), *b);
        },
        LevelTree::IMax(a, b) => {
            lemma_level_of(m, slot(m, o, 0), *a);
            lemma_level_of(m, slot(m, o, 1), *b);
        },
        LevelTree::Param(n) => {
            lemma_name_of(m, slot(m, o, 0), n);
        },
        _ => {},
    }
    assert(has_slots(m, o, 1) ==> has_slot(m, o, 0));
    assert(has_slots(m, o, 2) ==> has_slot(m, o, 0) && has_slot(m, o, 1));
}

/// What a live list of levels holds.
pub proof fn lemma_levels_parts(m: Bytes, o: LeanObj)
    requires
        is_levels(m, o),
    ensures
        is_list(m, o),
        levels_of(m, o).len() == list_of(m, o).len(),
        forall|i: int|
            0 <= i < list_of(m, o).len() ==> is_level(m, #[trigger] list_of(m, o)[i]) && levels_of(
                m,
                o,
            )[i] == level_of(m, list_of(m, o)[i]),
{
    let ls = choose|ls: Seq<LevelTree>| levels_repr(m, o, ls);
    lemma_levels_of(m, o, ls);
}

/// What a live expression is, by its outermost constructor.
pub proof fn lemma_expr_parts(m: Bytes, o: LeanObj)
    requires
        is_expr(m, o),
    ensures
        term_node(m, o),
        ({
            let t = expr_of(m, o);
            let tag = tag_of(m, o);
            let s0 = slot(m, o, 0);
            let s1 = slot(m, o, 1);
            let s2 = slot(m, o, 2);
            let s3 = slot(m, o, 3);
            let bi = binder_info_of(scalar_u8(m, o, BINDER_INFO_OFFSET as int));
            let nondep = scalar_u8(m, o, LET_NONDEP_OFFSET as int) != 0;
            let lit = slot(m, s0, 0);
            &&& tag == 0 ==> is_nat(m, s0) && t == ExprTree::BVar(nat_of(m, s0))
            &&& tag == 1 ==> t == ExprTree::FVar
            &&& tag == 2 ==> t == ExprTree::MVar
            &&& tag == 3 ==> is_level(m, s0) && t == ExprTree::Sort(level_of(m, s0))
            &&& tag == 4 ==> is_name(m, s0) && is_levels(m, s1) && t == ExprTree::Const(
                name_of(m, s0),
                levels_of(m, s1),
            )
            &&& tag == 5 ==> is_expr(m, s0) && is_expr(m, s1) && t == ExprTree::App(
                Box::new(expr_of(m, s0)),
                Box::new(expr_of(m, s1)),
            )
            &&& tag == 6 ==> is_name(m, s0) && is_expr(m, s1) && is_expr(m, s2) && t
                == ExprTree::Lambda(
                name_of(m, s0),
                bi,
                Box::new(expr_of(m, s1)),
                Box::new(expr_of(m, s2)),
            )
            &&& tag == 7 ==> is_name(m, s0) && is_expr(m, s1) && is_expr(m, s2) && t
                == ExprTree::Pi(
                name_of(m, s0),
                bi,
                Box::new(expr_of(m, s1)),
                Box::new(expr_of(m, s2)),
            )
            &&& tag == 8 ==> is_name(m, s0) && is_expr(m, s1) && is_expr(m, s2) && is_expr(m, s3)
                && t == ExprTree::Let(
                name_of(m, s0),
                Box::new(expr_of(m, s1)),
                Box::new(expr_of(m, s2)),
                Box::new(expr_of(m, s3)),
                nondep,
            )
            &&& tag == 9 && tag_of(m, s0) == 0 ==> is_nat(m, lit) && t == ExprTree::NatLit(
                nat_of(m, lit),
            )
            &&& tag == 9 && tag_of(m, s0) != 0 ==> t == ExprTree::StrLit(string_of(m, lit))
            &&& tag == 10 ==> is_expr(m, s1) && t == ExprTree::MData(Box::new(expr_of(m, s1)))
            &&& tag > 10 ==> is_name(m, s0) && is_nat(m, s1) && is_expr(m, s2) && t
                == ExprTree::Proj(name_of(m, s0), nat_of(m, s1), Box::new(expr_of(m, s2)))
        }),
{
    let t = expr_of(m, o);
    let s0 = slot(m, o, 0);
    let s1 = slot(m, o, 1);
    let s2 = slot(m, o, 2);
    let s3 = slot(m, o, 3);
    reveal(is_expr);
    reveal(term_node);
    assert(expr_repr(m, o, t));
    match t {
        ExprTree::BVar(i) => {
            lemma_nat_of(m, s0, i);
        },
        ExprTree::Sort(l) => {
            lemma_level_of(m, s0, l);
        },
        ExprTree::Const(n, ls) => {
            lemma_name_of(m, s0, n);
            lemma_levels_of(m, s1, ls);
        },
        ExprTree::App(f, a) => {
            lemma_expr_of(m, s0, *f);
            lemma_expr_of(m, s1, *a);
        },
        ExprTree::Lambda(n, _, ty, body) => {
            lemma_name_of(m, s0, n);
            lemma_expr_of(m, s1, *ty);
            lemma_expr_of(m, s2, *body);
        },
        ExprTree::Pi(n, _, ty, body) => {
            lemma_name_of(m, s0, n);
            lemma_expr_of(m, s1, *ty);
            lemma_expr_of(m, s2, *body);
        },
        ExprTree::Let(n, ty, val, body, _) => {
            lemma_name_of(m, s0, n);
            lemma_expr_of(m, s1, *ty);
            lemma_expr_of(m, s2, *val);
            lemma_expr_of(m, s3, *body);
        },
        ExprTree::NatLit(n) => {
            lemma_nat_of(m, slot(m, s0, 0), n);
        },
        ExprTree::MData(e) => {
            lemma_expr_of(m, s1, *e);
        },
        ExprTree::Proj(n, i, e) => {
            lemma_name_of(m, s0, n);
            lemma_nat_of(m, s1, i);
            lemma_expr_of(m, s2, *e);
        },
        _ => {},
    }
}

// ---------------------------------------------------------------------------
// Name
// ---------------------------------------------------------------------------

/// A view over a kernel name.
#[derive(Debug, Clone, Copy)]
pub struct Name(pub LeanObj);

/// A decoded name constructor.
#[derive(Debug, Clone)]
pub enum NameKind {
    Anon,
    Str(Name, String),
    Num(Name, Nat),
}

/// Whether the outermost constructor of the name `o` can be read.
pub open spec fn name_node(m: Bytes, o: LeanObj) -> bool {
    scalar(o) || {
        &&& has_tag(m, o)
        &&& has_slots(m, o, 2)
        &&& tag_of(m, o) == 1 ==> is_string(m, slot(m, o, 1))
    }
}

/// Whether `k` is the outermost constructor of the name `o`.
pub open spec fn name_kind_is(m: Bytes, o: LeanObj, k: NameKind) -> bool {
    match k {
        NameKind::Anon => scalar(o),
        NameKind::Str(pre, s) => {
            &&& !scalar(o) && tag_of(m, o) == 1
            &&& pre.0 == slot(m, o, 0)
            &&& s@ == string_of(m, slot(m, o, 1))
        },
        NameKind::Num(pre, n) => {
            &&& !scalar(o) && tag_of(m, o) != 1
            &&& pre.0 == slot(m, o, 0)
            &&& n.0 == slot(m, o, 1)
        },
    }
}

impl Name {
    /// Decodes the outermost constructor.
    pub fn kind<M: Memory>(self, mem: &M) -> (r: NameKind)
        requires
            name_node(mem.bytes(), self.0),
        ensures
            name_kind_is(mem.bytes(), self.0, r),
    {
        let o = self.0;
        if is_scalar(o) {
            return NameKind::Anon;
        }
        assert(has_slot(mem.bytes(), o, 0) && has_slot(mem.bytes(), o, 1));
        match ptr_tag(mem, o) {
            1 => NameKind::Str(Name(ctor_get(mem, o, 0)), string_str(mem, ctor_get(mem, o, 1))),
            _ => NameKind::Num(Name(ctor_get(mem, o, 0)), Nat(ctor_get(mem, o, 1))),
        }
    }
}

// ---------------------------------------------------------------------------
// Nat
// ---------------------------------------------------------------------------

/// A view over a kernel natural number: a tagged scalar, or a heap object.
#[derive(Debug, Clone, Copy)]
pub struct Nat(pub LeanObj);

impl Nat {
    /// The value of a tagged scalar (as indices are), `None` for a heap object.
    pub fn as_usize(self) -> (r: Option<u64>)
        ensures
            r == (if scalar(self.0) {
                Some(unboxed(self.0))
            } else {
                None
            }),
    {
        nat_as_usize(self.0)
    }
}

// ---------------------------------------------------------------------------
// Level
// ---------------------------------------------------------------------------

/// A view over a kernel level.
#[derive(Debug, Clone, Copy)]
pub struct Level(pub LeanObj);

/// A decoded level constructor.
#[derive(Debug, Clone, Copy)]
pub enum LevelKind {
    Zero,
    Succ(Level),
    Max(Level, Level),
    IMax(Level, Level),
    Param(Name),
    MVar(Name),
}

/// Whether the outermost constructor of the level `o` can be read.
pub open spec fn level_node(m: Bytes, o: LeanObj) -> bool {
    scalar(o) || {
        &&& has_tag(m, o)
        &&& has_slot(m, o, 0)
        &&& tag_of(m, o) == 2 || tag_of(m, o) == 3 ==> has_slot(m, o, 1)
    }
}

/// Whether `k` is the outermost constructor of the level `o`.
pub open spec fn level_kind_is(m: Bytes, o: LeanObj, k: LevelKind) -> bool {
    let tag = tag_of(m, o);
    match k {
        LevelKind::Zero => scalar(o),
        LevelKind::Succ(a) => !scalar(o) && tag == 1 && a.0 == slot(m, o, 0),
        LevelKind::Max(a, b) => !scalar(o) && tag == 2 && a.0 == slot(m, o, 0) && b.0 == slot(
            m,
            o,
            1,
        ),
        LevelKind::IMax(a, b) => !scalar(o) && tag == 3 && a.0 == slot(m, o, 0) && b.0 == slot(
            m,
            o,
            1,
        ),
        LevelKind::Param(n) => !scalar(o) && tag == 4 && n.0 == slot(m, o, 0),
        LevelKind::MVar(n) => !scalar(o) && (tag == 0 || tag > 4) && n.0 == slot(m, o, 0),
    }
}

impl Level {
    /// Decodes the outermost constructor.
    pub fn kind<M: Memory>(self, mem: &M) -> (r: LevelKind)
        requires
            level_node(mem.bytes(), self.0),
        ensures
            level_kind_is(mem.bytes(), self.0, r),
    {
        let o = self.0;
        if is_scalar(o) {
            return LevelKind::Zero;
        }
        match ptr_tag(mem, o) {
            1 => LevelKind::Succ(Level(ctor_get(mem, o, 0))),
            2 => LevelKind::Max(Level(ctor_get(mem, o, 0)), Level(ctor_get(mem, o, 1))),
            3 => LevelKind::IMax(Level(ctor_get(mem, o, 0)), Level(ctor_get(mem, o, 1))),
            4 => LevelKind::Param(Name(ctor_get(mem, o, 0))),
            _ => LevelKind::MVar(Name(ctor_get(mem, o, 0))),
        }
    }
}

/// The objects that the cells of a list hold, head to tail.
pub fn list_objs<M: Memory>(mem: &M, list: LeanObj) -> (r: Vec<LeanObj>)
    requires
        is_list(mem.bytes(), list),
    ensures
        r@ == list_of(mem.bytes(), list),
{
    let ghost m = mem.bytes();
    let ghost all = list_of(m, list);
    let mut out: Vec<LeanObj> = Vec::new();
    let mut cur: LeanObj = list;
    proof {
        assert(all.skip(0) =~= all);
    }
    while !is_scalar(cur)
        invariant
            m == mem.bytes(),
            out@.len() <= all.len(),
            out@ == all.take(out@.len() as int),
            list_repr(m, cur, all.skip(out@.len() as int)),
        decreases all.len() - out@.len(),
    {
        let ghost rest = all.skip(out@.len() as int);
        assert(rest.len() > 0);
        assert(has_slot(m, cur, 0) && has_slot(m, cur, 1));
        let head = ctor_get(mem, cur, 0);
        proof {
            let n = out@.len() as int;
            assert(head == all[n]);
            assert(rest.drop_first() =~= all.skip(n + 1));
            assert(out@.push(head) =~= all.take(n + 1));
        }
        out.push(head);
        cur = ctor_get(mem, cur, 1);
    }
    proof {
        assert(all.skip(out@.len() as int).len() == 0);
        assert(out@ =~= all);
    }
    out
}

/// A view over a list of levels (the universe arguments of a constant).
#[derive(Debug, Clone, Copy)]
pub struct Levels(pub LeanObj);

impl Levels {
    /// The levels, head to tail.
    pub fn collect<M: Memory>(self, mem: &M) -> (r: Vec<Level>)
        requires
            is_list(mem.bytes(), self.0),
        ensures
            r@.len() == list_of(mem.bytes(), self.0).len(),
            forall|i: int| 0 <= i < r@.len() ==> (#[trigger] r@[i]).0 == list_of(
                mem.bytes(),
                self.0,
            )[i],
    {
        let objs = list_objs(mem, self.0);
        let mut out: Vec<Level> = Vec::new();
        let mut i: usize = 0;
        while i < objs.len()
            invariant
                i <= objs.len(),
                out@.len() == i,
                forall|j: int| 0 <= j < i ==> (#[trigger] out@[j]).0 == objs@[j],
            decreases objs.len() - i,
        {
            out.push(Level(objs[i]));
            i = i + 1;
        }
        out
    }
}

// ---------------------------------------------------------------------------
// Expr
// ---------------------------------------------------------------------------

/// A literal.
#[derive(Debug, Clone)]
pub enum Lit {
    Nat(Nat),
    Str(String),
}

/// A view over a kernel expression.
#[derive(Debug, Clone, Copy)]
pub struct Term(pub LeanObj);

/// A decoded expression constructor, with views of its children.
#[derive(Debug, Clone)]
pub enum TermKind {
    BVar(Nat),
    FVar(Name),
    MVar(Name),
    Sort(Level),
    Const(Name, Levels),
    App(Term, Term),
    Lambda(Name, BinderInfo, Term, Term),
    Pi(Name, BinderInfo, Term, Term),
    Let(Name, Term, Term, Term, bool),
    Lit(Lit),
    MData(Term),
    Proj(Name, Nat, Term),
}

/// Whether the outermost constructor of the expression `o` can be read.
#[verifier::opaque]
pub open spec fn term_node(m: Bytes, o: LeanObj) -> bool {
    let tag = tag_of(m, o);
    &&& has_tag(m, o)
    &&& tag <= 3 || tag == 9 ==> has_slots(m, o, 1)
    &&& tag == 4 || tag == 5 || tag == 10 ==> has_slots(m, o, 2)
    &&& tag == 6 || tag == 7 ==> has_slots(m, o, 3) && has_scalars(
        m,
        o,
        BINDER_INFO_OFFSET as int,
        1,
    )
    &&& tag == 8 ==> has_slots(m, o, 4) && has_scalars(m, o, LET_NONDEP_OFFSET as int, 1)
    &&& tag == 9 ==> {
        let lit = slot(m, o, 0);
        &&& has_tag(m, lit) && has_slot(m, lit, 0)
        &&& tag_of(m, lit) != 0 ==> is_string(m, slot(m, lit, 0))
    }
    &&& tag > 10 ==> has_slots(m, o, 3)
}

/// Whether `k` is the outermost constructor of the expression `o`.
pub open spec fn term_kind_is(m: Bytes, o: LeanObj, k: TermKind) -> bool {
    let tag = tag_of(m, o);
    match k {
        TermKind::BVar(i) => tag == 0 && i.0 == slot(m, o, 0),
        TermKind::FVar(n) => tag == 1 && n.0 == slot(m, o, 0),
        TermKind::MVar(n) => tag == 2 && n.0 == slot(m, o, 0),
        TermKind::Sort(l) => tag == 3 && l.0 == slot(m, o, 0),
        TermKind::Const(n, ls) => tag == 4 && n.0 == slot(m, o, 0) && ls.0 == slot(m, o, 1),
        TermKind::App(f, a) => tag == 5 && f.0 == slot(m, o, 0) && a.0 == slot(m, o, 1),
        TermKind::Lambda(n, bi, ty, body) => {
            &&& tag == 6
            &&& n.0 == slot(m, o, 0)
            &&& bi == binder_info_of(scalar_u8(m, o, BINDER_INFO_OFFSET as int))
            &&& ty.0 == slot(m, o, 1)
            &&& body.0 == slot(m, o, 2)
        },
        TermKind::Pi(n, bi, ty, body) => {
            &&& tag == 7
            &&& n.0 == slot(m, o, 0)
            &&& bi == binder_info_of(scalar_u8(m, o, BINDER_INFO_OFFSET as int))
            &&& ty.0 == slot(m, o, 1)
            &&& body.0 == slot(m, o, 2)
        },
        TermKind::Let(n, ty, val, body, nondep) => {
            &&& tag == 8
            &&& n.0 == slot(m, o, 0)
            &&& ty.0 == slot(m, o, 1)
            &&& val.0 == slot(m, o, 2)
            &&& body.0 == slot(m, o, 3)
            &&& nondep == (scalar_u8(m, o, LET_NONDEP_OFFSET as int) != 0)
        },
        TermKind::Lit(Lit::Nat(n)) => {
            &&& tag == 9
            &&& tag_of(m, slot(m, o, 0)) == 0
            &&& n.0 == slot(m, slot(m, o, 0), 0)
        },
        TermKind::Lit(Lit::Str(s)) => {
            &&& tag == 9
            &&& tag_of(m, slot(m, o, 0)) != 0
            &&& s@ == string_of(m, slot(m, slot(m, o, 0), 0))
        },
        TermKind::MData(e) => tag == 10 && e.0 == slot(m, o, 1),
        TermKind::Proj(n, i, e) => {
            &&& tag > 10
            &&& n.0 == slot(m, o, 0)
            &&& i.0 == slot(m, o, 1)
            &&& e.0 == slot(m, o, 2)
        },
    }
}

impl Term {
    /// Decodes the outermost constructor.
    pub fn kind<M: Memory>(self, mem: &M) -> (r: TermKind)
        requires
            term_node(mem.bytes(), self.0),
        ensures
            term_kind_is(mem.bytes(), self.0, r),
    {
        let o = self.0;
        let ghost m = mem.bytes();
        proof {
            reveal(term_node);
        }
        let tag = ptr_tag(mem, o);
        proof {
            assert(has_slots(m, o, 1) ==> has_slot(m, o, 0));
            assert(has_slots(m, o, 2) ==> has_slot(m, o, 0) && has_slot(m, o, 1));
            assert(has_slots(m, o, 3) ==> has_slot(m, o, 0) && has_slot(m, o, 1) && has_slot(
                m,
                o,
                2,
            ));
            assert(has_slots(m, o, 4) ==> has_slot(m, o, 0) && has_slot(m, o, 1) && has_slot(
                m,
                o,
                2,
            ) && has_slot(m, o, 3));
        }
        match tag {
            0 => TermKind::BVar(Nat(ctor_get(mem, o, 0))),
            1 => TermKind::FVar(Name(ctor_get(mem, o, 0))),
            2 => TermKind::MVar(Name(ctor_get(mem, o, 0))),
            3 => TermKind::Sort(Level(ctor_get(mem, o, 0))),
            4 => TermKind::Const(Name(ctor_get(mem, o, 0)), Levels(ctor_get(mem, o, 1))),
            5 => TermKind::App(Term(ctor_get(mem, o, 0)), Term(ctor_get(mem, o, 1))),
            6 => TermKind::Lambda(
                Name(ctor_get(mem, o, 0)),
                BinderInfo::from_u8(ctor_get_uint8(mem, o, 3 * PTR + DATA_WORD)),
                Term(ctor_get(mem, o, 1)),
                Term(ctor_get(mem, o, 2)),
            ),
            7 => TermKind::Pi(
                Name(ctor_get(mem, o, 0)),
                BinderInfo::from_u8(ctor_get_uint8(mem, o, 3 * PTR + DATA_WORD)),
                Term(ctor_get(mem, o, 1)),
                Term(ctor_get(mem, o, 2)),
            ),
            8 => TermKind::Let(
                Name(ctor_get(mem, o, 0)),
                Term(ctor_get(mem, o, 1)),
                Term(ctor_get(mem, o, 2)),
                Term(ctor_get(mem, o, 3)),
                ctor_get_uint8(mem, o, 4 * PTR + DATA_WORD) != 0,
            ),
            9 => {
                let lit = ctor_get(mem, o, 0);
                if ptr_tag(mem, lit) == 0 {
                    TermKind::Lit(Lit::Nat(Nat(ctor_get(mem, lit, 0))))
                } else {
                    TermKind::Lit(Lit::Str(string_str(mem, ctor_get(mem, lit, 0))))
                }
            },
            10 => TermKind::MData(Term(ctor_get(mem, o, 1))),
            _ => TermKind::Proj(
                Name(ctor_get(mem, o, 0)),
                Nat(ctor_get(mem, o, 1)),
                Term(ctor_get(mem, o, 2)),
            ),
        }
    }
}

/// A number is the same number in either way of storing it.
pub proof fn law_nat_value(n: u64, v: nat)
    ensures
        NatTree::Small(n).value() == n,
        NatTree::Big(v).value() == v,
{
}

} // verus!
