//! What importing does to the arena, over trees and sequences.
//!
//! [`DagModel`] is the contents of the arena. The `add_*` functions say, for
//! each kind of tree, which nodes are interned in which order, what pointer
//! comes out, and on which trees the import stops with which message. They
//! know nothing of addresses or of memos.

use crate::big::{limbs_of, limbs_value};
use crate::expr::{BinderStyle, Expr};
use crate::level::Level;
use crate::name::Name;
use crate::term::{BinderInfo, ExprTree, LevelTree, NameTree, NatTree};
use crate::util::{
    interned, interned_at, BigUintPtr, DagMarker, ExprPtr, LevelPtr, LevelsPtr, NamePtr, StringPtr,
};
use vstd::prelude::*;

verus! {

/// The contents of the arena: the items of each set, in order.
pub struct DagModel {
    pub names: Seq<Name>,
    pub levels: Seq<Level>,
    pub exprs: Seq<Expr>,
    pub strings: Seq<Seq<char>>,
    pub uparams: Seq<Seq<LevelPtr>>,
    pub bignums: Option<Seq<Seq<u64>>>,
}

/// What an import leaves behind: the arena, and a pointer or the message of
/// the error that it stopped on.
pub type Outcome<T> = (DagModel, Result<T, Seq<char>>);

// ---------------------------------------------------------------------------
// Interning one node
// ---------------------------------------------------------------------------

/// The persistent pointer to name `i`.
pub open spec fn name_ptr(i: int) -> NamePtr {
    NamePtr { marker: DagMarker::ExportFile, idx: i as usize }
}

/// The persistent pointer to level `i`.
pub open spec fn level_ptr(i: int) -> LevelPtr {
    LevelPtr { marker: DagMarker::ExportFile, idx: i as usize }
}

/// The persistent pointer to the sequence of levels `i`.
pub open spec fn levels_ptr(i: int) -> LevelsPtr {
    LevelsPtr { marker: DagMarker::ExportFile, idx: i as usize }
}

/// The persistent pointer to expression `i`.
pub open spec fn expr_ptr(i: int) -> ExprPtr {
    ExprPtr { marker: DagMarker::ExportFile, idx: i as usize }
}

/// The persistent pointer to string `i`.
pub open spec fn string_ptr(i: int) -> StringPtr {
    StringPtr { marker: DagMarker::ExportFile, idx: i as usize }
}

/// The persistent pointer to big natural number `i`.
pub open spec fn biguint_ptr(i: int) -> BigUintPtr {
    BigUintPtr { marker: DagMarker::ExportFile, idx: i as usize }
}

/// Interns a name.
pub open spec fn put_name(d: DagModel, n: Name) -> (DagModel, NamePtr) {
    (DagModel { names: interned(d.names, n), ..d }, name_ptr(interned_at(d.names, n)))
}

/// Interns a level.
pub open spec fn put_level(d: DagModel, l: Level) -> (DagModel, LevelPtr) {
    (DagModel { levels: interned(d.levels, l), ..d }, level_ptr(interned_at(d.levels, l)))
}

/// Interns a sequence of levels.
pub open spec fn put_levels(d: DagModel, ls: Seq<LevelPtr>) -> (DagModel, LevelsPtr) {
    (DagModel { uparams: interned(d.uparams, ls), ..d }, levels_ptr(interned_at(d.uparams, ls)))
}

/// Interns an expression.
pub open spec fn put_expr(d: DagModel, e: Expr) -> (DagModel, ExprPtr) {
    (DagModel { exprs: interned(d.exprs, e), ..d }, expr_ptr(interned_at(d.exprs, e)))
}

/// Interns a string.
pub open spec fn put_string(d: DagModel, s: Seq<char>) -> (DagModel, StringPtr) {
    (DagModel { strings: interned(d.strings, s), ..d }, string_ptr(interned_at(d.strings, s)))
}

/// Interns a big natural number, where the arena keeps any.
pub open spec fn put_bignum(d: DagModel, v: Seq<u64>) -> Outcome<BigUintPtr> {
    match d.bignums {
        Some(s) => (
            DagModel { bignums: Some(interned(s, v)), ..d },
            Ok(biguint_ptr(interned_at(s, v))),
        ),
        None => (d, Err("bignum store disabled"@)),
    }
}

/// The larger of two numbers.
pub open spec fn max(a: u32, b: u32) -> u32 {
    if a >= b {
        a
    } else {
        b
    }
}

/// One less, or zero.
pub open spec fn pred(a: u32) -> u32 {
    if a == 0 {
        0
    } else {
        (a - 1) as u32
    }
}

/// The number of binders that would close the expression behind `p`.
pub open spec fn loose(d: DagModel, p: ExprPtr) -> u32 {
    d.exprs[p.idx as int].loose_bvars()
}

/// Whether there is a free variable in the expression behind `p`.
pub open spec fn fvars(d: DagModel, p: ExprPtr) -> bool {
    d.exprs[p.idx as int].fvars()
}

/// The application of `fun` to `arg`.
pub open spec fn app_node(d: DagModel, fun: ExprPtr, arg: ExprPtr) -> Expr {
    Expr::App {
        fun,
        arg,
        num_loose_bvars: max(loose(d, fun), loose(d, arg)),
        has_fvars: fvars(d, fun) || fvars(d, arg),
    }
}

/// The pi or lambda with the given parts.
pub open spec fn binding_node(
    d: DagModel,
    is_pi: bool,
    name: NamePtr,
    style: BinderStyle,
    ty: ExprPtr,
    body: ExprPtr,
) -> Expr {
    let num_loose_bvars = max(loose(d, ty), pred(loose(d, body)));
    let has_fvars = fvars(d, ty) || fvars(d, body);
    if is_pi {
        Expr::Pi {
            binder_name: name,
            binder_style: style,
            binder_type: ty,
            body,
            num_loose_bvars,
            has_fvars,
        }
    } else {
        Expr::Lambda {
            binder_name: name,
            binder_style: style,
            binder_type: ty,
            body,
            num_loose_bvars,
            has_fvars,
        }
    }
}

/// The let with the given parts.
pub open spec fn let_node(
    d: DagModel,
    name: NamePtr,
    ty: ExprPtr,
    val: ExprPtr,
    body: ExprPtr,
    nondep: bool,
) -> Expr {
    Expr::Let {
        binder_name: name,
        binder_type: ty,
        val,
        body,
        num_loose_bvars: max(loose(d, ty), max(loose(d, val), pred(loose(d, body)))),
        has_fvars: fvars(d, ty) || fvars(d, val) || fvars(d, body),
        nondep,
    }
}

/// The projection of field `idx` out of `structure`.
pub open spec fn proj_node(d: DagModel, ty_name: NamePtr, idx: u64, structure: ExprPtr) -> Expr {
    Expr::Proj {
        ty_name,
        idx,
        structure,
        num_loose_bvars: loose(d, structure),
        has_fvars: fvars(d, structure),
    }
}

/// The arena's word for a binder annotation.
pub open spec fn style_of(bi: BinderInfo) -> BinderStyle {
    match bi {
        BinderInfo::Default => BinderStyle::Default,
        BinderInfo::Implicit => BinderStyle::Implicit,
        BinderInfo::StrictImplicit => BinderStyle::StrictImplicit,
        BinderInfo::InstImplicit => BinderStyle::InstanceImplicit,
    }
}

// ---------------------------------------------------------------------------
// Importing trees
// ---------------------------------------------------------------------------

/// Imports a name.
pub open spec fn add_name(d: DagModel, t: NameTree) -> Outcome<NamePtr>
    decreases t,
{
    match t {
        NameTree::Anon => (d, Ok(name_ptr(0))),
        NameTree::Str(pre, s) => match add_name(d, *pre) {
            (d1, Ok(p)) => {
                let (d2, q) = put_string(d1, s);
                let (d3, r) = put_name(d2, Name::Str(p, q));
                (d3, Ok(r))
            },
            (d1, Err(e)) => (d1, Err(e)),
        },
        NameTree::Num(pre, n) => match add_name(d, *pre) {
            (d1, Ok(p)) => match n {
                NatTree::Small(v) => {
                    let (d2, r) = put_name(d1, Name::Num(p, v));
                    (d2, Ok(r))
                },
                NatTree::Big(_) => (d1, Err("bignum name component"@)),
            },
            (d1, Err(e)) => (d1, Err(e)),
        },
    }
}

/// Imports the names `ns` one after the other, up to the first error.
pub open spec fn add_names(d: DagModel, ns: Seq<NameTree>) -> Outcome<Seq<NamePtr>>
    decreases ns.len(),
{
    if ns.len() == 0 {
        (d, Ok(seq![]))
    } else {
        match add_names(d, ns.drop_last()) {
            (d1, Ok(ps)) => match add_name(d1, ns.last()) {
                (d2, Ok(p)) => (d2, Ok(ps.push(p))),
                (d2, Err(e)) => (d2, Err(e)),
            },
            (d1, Err(e)) => (d1, Err(e)),
        }
    }
}

/// Imports a level.
pub open spec fn add_level(d: DagModel, t: LevelTree) -> Outcome<LevelPtr>
    decreases t,
{
    match t {
        LevelTree::Zero => (d, Ok(level_ptr(0))),
        LevelTree::Succ(a) => match add_level(d, *a) {
            (d1, Ok(p)) => {
                let (d2, r) = put_level(d1, Level::Succ(p));
                (d2, Ok(r))
            },
            (d1, Err(e)) => (d1, Err(e)),
        },
        LevelTree::Max(a, b) => match add_level(d, *a) {
            (d1, Ok(p)) => match add_level(d1, *b) {
                (d2, Ok(q)) => {
                    let (d3, r) = put_level(d2, Level::Max(p, q));
                    (d3, Ok(r))
                },
                (d2, Err(e)) => (d2, Err(e)),
            },
            (d1, Err(e)) => (d1, Err(e)),
        },
        LevelTree::IMax(a, b) => match add_level(d, *a) {
            (d1, Ok(p)) => match add_level(d1, *b) {
                (d2, Ok(q)) => {
                    let (d3, r) = put_level(d2, Level::IMax(p, q));
                    (d3, Ok(r))
                },
                (d2, Err(e)) => (d2, Err(e)),
            },
            (d1, Err(e)) => (d1, Err(e)),
        },
        LevelTree::Param(n) => match add_name(d, n) {
            (d1, Ok(p)) => {
                let (d2, r) = put_level(d1, Level::Param(p));
                (d2, Ok(r))
            },
            (d1, Err(e)) => (d1, Err(e)),
        },
        LevelTree::MVar => (d, Err("universe metavariable in declaration"@)),
    }
}

/// Imports the levels `ls` one after the other, up to the first error.
pub open spec fn add_level_seq(d: DagModel, ls: Seq<LevelTree>) -> Outcome<Seq<LevelPtr>>
    decreases ls.len(),
{
    if ls.len() == 0 {
        (d, Ok(seq![]))
    } else {
        match add_level_seq(d, ls.drop_last()) {
            (d1, Ok(ps)) => match add_level(d1, ls.last()) {
                (d2, Ok(p)) => (d2, Ok(ps.push(p))),
                (d2, Err(e)) => (d2, Err(e)),
            },
            (d1, Err(e)) => (d1, Err(e)),
        }
    }
}

/// Imports a sequence of levels.
pub open spec fn add_levels(d: DagModel, ls: Seq<LevelTree>) -> Outcome<LevelsPtr> {
    match add_level_seq(d, ls) {
        (d1, Ok(ps)) => {
            let (d2, r) = put_levels(d1, ps);
            (d2, Ok(r))
        },
        (d1, Err(e)) => (d1, Err(e)),
    }
}

/// The level parameters with the given names.
pub open spec fn params_of(ns: Seq<NameTree>) -> Seq<LevelTree> {
    ns.map_values(|n: NameTree| LevelTree::Param(n))
}

/// Imports an expression. Natural number literals and string literals are
/// taken where `nat_ext` and `str_ext` say so.
#[verifier::opaque]
pub open spec fn add_expr(d: DagModel, nat_ext: bool, str_ext: bool, t: ExprTree) -> Outcome<
    ExprPtr,
>
    decreases t, 1int,
{
    add_expr_node(d, nat_ext, str_ext, t)
}

/// Imports an expression, constructor by constructor.
pub open spec fn add_expr_node(
    d: DagModel,
    nat_ext: bool,
    str_ext: bool,
    t: ExprTree,
) -> Outcome<ExprPtr>
    decreases t, 0int,
{
    match t {
        ExprTree::BVar(n) => match n {
            NatTree::Big(_) => (d, Err("bignum bvar index"@)),
            NatTree::Small(v) => if v > 0xffff {
                (d, Err("bvar index exceeds u16"@))
            } else {
                let (d1, r) = put_expr(d, Expr::Var { dbj_idx: v as u16 });
                (d1, Ok(r))
            },
        },
        ExprTree::Sort(l) => match add_level(d, l) {
            (d1, Ok(level)) => {
                let (d2, r) = put_expr(d1, Expr::Sort { level });
                (d2, Ok(r))
            },
            (d1, Err(e)) => (d1, Err(e)),
        },
        ExprTree::Const(n, ls) => match add_name(d, n) {
            (d1, Ok(name)) => match add_levels(d1, ls) {
                (d2, Ok(levels)) => {
                    let (d3, r) = put_expr(d2, Expr::Const { name, levels });
                    (d3, Ok(r))
                },
                (d2, Err(e)) => (d2, Err(e)),
            },
            (d1, Err(e)) => (d1, Err(e)),
        },
        ExprTree::App(f, a) => match add_expr(d, nat_ext, str_ext, *f) {
            (d1, Ok(fun)) => match add_expr(d1, nat_ext, str_ext, *a) {
                (d2, Ok(arg)) => {
                    let (d3, r) = put_expr(d2, app_node(d2, fun, arg));
                    (d3, Ok(r))
                },
                (d2, Err(e)) => (d2, Err(e)),
            },
            (d1, Err(e)) => (d1, Err(e)),
        },
        ExprTree::Lambda(n, bi, ty, body) => match add_name(d, n) {
            (d1, Ok(name)) => match add_expr(d1, nat_ext, str_ext, *ty) {
                (d2, Ok(p)) => match add_expr(d2, nat_ext, str_ext, *body) {
                    (d3, Ok(b)) => {
                        let (d4, r) = put_expr(
                            d3,
                            binding_node(d3, false, name, style_of(bi), p, b),
                        );
                        (d4, Ok(r))
                    },
                    (d3, Err(e)) => (d3, Err(e)),
                },
                (d2, Err(e)) => (d2, Err(e)),
            },
            (d1, Err(e)) => (d1, Err(e)),
        },
        ExprTree::Pi(n, bi, ty, body) => match add_name(d, n) {
            (d1, Ok(name)) => match add_expr(d1, nat_ext, str_ext, *ty) {
                (d2, Ok(p)) => match add_expr(d2, nat_ext, str_ext, *body) {
                    (d3, Ok(b)) => {
                        let (d4, r) = put_expr(
                            d3,
                            binding_node(d3, true, name, style_of(bi), p, b),
                        );
                        (d4, Ok(r))
                    },
                    (d3, Err(e)) => (d3, Err(e)),
                },
                (d2, Err(e)) => (d2, Err(e)),
            },
            (d1, Err(e)) => (d1, Err(e)),
        },
        ExprTree::Let(n, ty, val, body, nondep) => match add_name(d, n) {
            (d1, Ok(name)) => match add_expr(d1, nat_ext, str_ext, *ty) {
                (d2, Ok(p)) => match add_expr(d2, nat_ext, str_ext, *val) {
                    (d3, Ok(q)) => match add_expr(d3, nat_ext, str_ext, *body) {
                        (d4, Ok(b)) => {
                            let (d5, r) = put_expr(d4, let_node(d4, name, p, q, b, nondep));
                            (d5, Ok(r))
                        },
                        (d4, Err(e)) => (d4, Err(e)),
                    },
                    (d3, Err(e)) => (d3, Err(e)),
                },
                (d2, Err(e)) => (d2, Err(e)),
            },
            (d1, Err(e)) => (d1, Err(e)),
        },
        ExprTree::NatLit(n) => if !nat_ext {
            (d, Err("Nat literal but nat_extension disabled"@))
        } else {
            match put_bignum(d, limbs_of(n.value())) {
                (d1, Ok(ptr)) => {
                    let (d2, r) = put_expr(d1, Expr::NatLit { ptr });
                    (d2, Ok(r))
                },
                (d1, Err(e)) => (d1, Err(e)),
            }
        },
        ExprTree::StrLit(s) => if !str_ext {
            (d, Err("String literal but string_extension disabled"@))
        } else {
            let (d1, ptr) = put_string(d, s);
            let (d2, r) = put_expr(d1, Expr::StringLit { ptr });
            (d2, Ok(r))
        },
        ExprTree::MData(e) => add_expr(d, nat_ext, str_ext, *e),
        ExprTree::Proj(n, i, e) => match add_name(d, n) {
            (d1, Ok(ty_name)) => match i {
                NatTree::Big(_) => (d1, Err("bignum proj index"@)),
                NatTree::Small(idx) => match add_expr(d1, nat_ext, str_ext, *e) {
                    (d2, Ok(structure)) => {
                        let (d3, r) = put_expr(d2, proj_node(d2, ty_name, idx, structure));
                        (d3, Ok(r))
                    },
                    (d2, Err(e)) => (d2, Err(e)),
                },
            },
            (d1, Err(e)) => (d1, Err(e)),
        },
        ExprTree::FVar => (d, Err("free/meta variable in closed declaration"@)),
        ExprTree::MVar => (d, Err("free/meta variable in closed declaration"@)),
    }
}

/// [`add_expr`] goes constructor by constructor.
pub proof fn lemma_add_expr(d: DagModel, nat_ext: bool, str_ext: bool, t: ExprTree)
    ensures
        add_expr(d, nat_ext, str_ext, t) == add_expr_node(d, nat_ext, str_ext, t),
{
    reveal(add_expr);
}

// ---------------------------------------------------------------------------
// Arenas
// ---------------------------------------------------------------------------

/// Whether `t` begins with `s`.
pub open spec fn begins_with<A>(t: Seq<A>, s: Seq<A>) -> bool {
    &&& s.len() <= t.len()
    &&& forall|i: int| 0 <= i < s.len() ==> s[i] == t[i]
}

/// Whether `e` holds all that `d` holds, each item where it was.
#[verifier::opaque]
pub open spec fn extends(d: DagModel, e: DagModel) -> bool {
    &&& begins_with(e.names, d.names)
    &&& begins_with(e.levels, d.levels)
    &&& begins_with(e.exprs, d.exprs)
    &&& begins_with(e.strings, d.strings)
    &&& begins_with(e.uparams, d.uparams)
    &&& match (d.bignums, e.bignums) {
        (Some(s), Some(t)) => begins_with(t, s),
        (None, None) => true,
        _ => false,
    }
}

/// Whether every index fits in a pointer.
pub open spec fn fits(d: DagModel) -> bool {
    &&& d.names.len() <= usize::MAX
    &&& d.levels.len() <= usize::MAX
    &&& d.exprs.len() <= usize::MAX
    &&& d.strings.len() <= usize::MAX
    &&& d.uparams.len() <= usize::MAX
    &&& d.bignums matches Some(s) ==> s.len() <= usize::MAX
}

/// Whether `p` points at a name of `d`.
pub open spec fn valid_name(d: DagModel, p: NamePtr) -> bool {
    p.marker == DagMarker::ExportFile && p.idx < d.names.len()
}

/// Whether `p` points at a level of `d`.
pub open spec fn valid_level(d: DagModel, p: LevelPtr) -> bool {
    p.marker == DagMarker::ExportFile && p.idx < d.levels.len()
}

/// Whether `p` points at a sequence of levels of `d`.
pub open spec fn valid_levels(d: DagModel, p: LevelsPtr) -> bool {
    p.marker == DagMarker::ExportFile && p.idx < d.uparams.len()
}

/// Whether `p` points at an expression of `d`.
pub open spec fn valid_expr(d: DagModel, p: ExprPtr) -> bool {
    p.marker == DagMarker::ExportFile && p.idx < d.exprs.len()
}

/// Whether `p` points at a string of `d`.
pub open spec fn valid_string(d: DagModel, p: StringPtr) -> bool {
    p.marker == DagMarker::ExportFile && p.idx < d.strings.len()
}

/// Whether `p` points at a big natural number of `d`.
pub open spec fn valid_biguint(d: DagModel, p: BigUintPtr) -> bool {
    &&& p.marker == DagMarker::ExportFile
    &&& d.bignums matches Some(s) && p.idx < s.len()
}

/// Whether `n` can stand in `d` as name number `bound`: its parts are there,
/// and its prefix comes before it.
pub open spec fn name_ok(d: DagModel, n: Name, bound: int) -> bool {
    match n {
        Name::Anon => true,
        Name::Str(pre, sfx) => valid_name(d, pre) && pre.idx < bound && valid_string(d, sfx),
        Name::Num(pre, _) => valid_name(d, pre) && pre.idx < bound,
    }
}

/// Whether `l` can stand in `d` as level number `bound`.
pub open spec fn level_ok(d: DagModel, l: Level, bound: int) -> bool {
    match l {
        Level::Zero => true,
        Level::Succ(a) => valid_level(d, a) && a.idx < bound,
        Level::Max(a, b) => valid_level(d, a) && a.idx < bound && valid_level(d, b) && b.idx
            < bound,
        Level::IMax(a, b) => valid_level(d, a) && a.idx < bound && valid_level(d, b) && b.idx
            < bound,
        Level::Param(n) => valid_name(d, n),
    }
}

/// Whether `ls` can stand in `d` as a sequence of levels.
pub open spec fn levels_ok(d: DagModel, ls: Seq<LevelPtr>) -> bool {
    forall|i: int| 0 <= i < ls.len() ==> valid_level(d, #[trigger] ls[i])
}

/// Whether `p` points at an expression of `d` before number `bound`.
pub open spec fn expr_before(d: DagModel, p: ExprPtr, bound: int) -> bool {
    valid_expr(d, p) && p.idx < bound
}

/// Whether `e` can stand in `d` as expression number `bound`: its parts are
/// there, its subexpressions come before it, and what it carries of loose
/// bound variables and free variables is what its subexpressions say.
pub open spec fn expr_ok(d: DagModel, e: Expr, bound: int) -> bool {
    match e {
        Expr::Var { .. } => true,
        Expr::Sort { level } => valid_level(d, level),
        Expr::Const { name, levels } => valid_name(d, name) && valid_levels(d, levels),
        Expr::App { fun, arg, .. } => {
            &&& expr_before(d, fun, bound)
            &&& expr_before(d, arg, bound)
            &&& e == app_node(d, fun, arg)
        },
        Expr::Pi { binder_name, binder_style, binder_type, body, .. } => {
            &&& valid_name(d, binder_name)
            &&& expr_before(d, binder_type, bound)
            &&& expr_before(d, body, bound)
            &&& e == binding_node(d, true, binder_name, binder_style, binder_type, body)
        },
        Expr::Lambda { binder_name, binder_style, binder_type, body, .. } => {
            &&& valid_name(d, binder_name)
            &&& expr_before(d, binder_type, bound)
            &&& expr_before(d, body, bound)
            &&& e == binding_node(d, false, binder_name, binder_style, binder_type, body)
        },
        Expr::Let { binder_name, binder_type, val, body, nondep, .. } => {
            &&& valid_name(d, binder_name)
            &&& expr_before(d, binder_type, bound)
            &&& expr_before(d, val, bound)
            &&& expr_before(d, body, bound)
            &&& e == let_node(d, binder_name, binder_type, val, body, nondep)
        },
        Expr::Proj { ty_name, idx, structure, .. } => {
            &&& valid_name(d, ty_name)
            &&& expr_before(d, structure, bound)
            &&& e == proj_node(d, ty_name, idx, structure)
        },
        Expr::NatLit { ptr } => valid_biguint(d, ptr),
        Expr::StringLit { ptr } => valid_string(d, ptr),
        Expr::Local { binder_name, binder_type, .. } => {
            &&& valid_name(d, binder_name)
            &&& expr_before(d, binder_type, bound)
        },
    }
}

/// Whether nothing in `d` occurs twice.
pub open spec fn distinct(d: DagModel) -> bool {
    &&& d.names.no_duplicates()
    &&& d.levels.no_duplicates()
    &&& d.exprs.no_duplicates()
    &&& d.strings.no_duplicates()
    &&& d.uparams.no_duplicates()
    &&& d.bignums matches Some(s) ==> s.no_duplicates()
}

/// Whether `d` is an arena: nothing occurs twice, the anonymous name and the
/// level zero come first, every node can stand where it stands, and every big
/// natural number is written without leading zeros.
#[verifier::opaque]
pub open spec fn wf(d: DagModel) -> bool {
    &&& distinct(d)
    &&& d.names.len() > 0 && d.names[0] == Name::Anon
    &&& d.levels.len() > 0 && d.levels[0] == Level::Zero
    &&& forall|i: int| 0 <= i < d.names.len() ==> name_ok(d, #[trigger] d.names[i], i)
    &&& forall|i: int| 0 <= i < d.levels.len() ==> level_ok(d, #[trigger] d.levels[i], i)
    &&& forall|i: int| 0 <= i < d.uparams.len() ==> levels_ok(d, #[trigger] d.uparams[i])
    &&& forall|i: int| 0 <= i < d.exprs.len() ==> expr_ok(d, #[trigger] d.exprs[i], i)
    &&& d.bignums matches Some(s) ==> forall|i: int|
        0 <= i < s.len() ==> limbs_of(limbs_value(#[trigger] s[i])) == s[i]
}

} // verus!
