//! What holds of imports as a whole.
//!
//! The arena holds a term behind a pointer where following the pointers down
//! spells the term out. An import puts its term behind the pointer that it
//! returns, what is there stays there, and two pointers are the same exactly
//! where their terms are.

use crate::arena::{
    lemma_expr_grows, lemma_expr_settles, lemma_extends_refl, lemma_extends_trans,
    lemma_fits_down, lemma_level_grows, lemma_level_seq_grows, lemma_level_settles,
    lemma_levels_grow, lemma_levels_settle, lemma_name_grows, lemma_name_settles,
    lemma_put_bignum_grows, lemma_put_expr_grows, lemma_put_level_grows, lemma_put_levels_grows,
    lemma_put_name_grows, lemma_put_string_grows, lemma_valid_extends,
};
use crate::big::{law_limbs_roundtrip, limbs_of, limbs_value};
use crate::expr::{BinderStyle, Expr};
use crate::level::Level;
use crate::model::{
    add_expr, add_level, add_level_seq, add_levels, add_name, app_node, binding_node, expr_ok,
    expr_ptr, extends, fits, fvars, lemma_add_expr, let_node, level_ptr, loose, name_ptr,
    proj_node, put_bignum, put_expr, put_level, put_levels, put_name, put_string, style_of,
    valid_biguint, valid_expr, valid_level, valid_levels, valid_name, valid_string, wf,
    DagModel,
};
use crate::name::Name;
use crate::term::{BinderInfo, ExprTree, LevelTree, NameTree, NatTree};
use crate::util::{
    interned, interned_at, lemma_index_of, BigUintPtr, ExprPtr, LevelPtr, LevelsPtr, NamePtr,
    StringPtr,
};
use vstd::prelude::*;

verus! {

// ---------------------------------------------------------------------------
// What an arena holds
// ---------------------------------------------------------------------------

/// Whether `d` holds the name `t` behind `p`.
pub open spec fn name_held(d: DagModel, p: NamePtr, t: NameTree) -> bool
    decreases t,
{
    valid_name(d, p) && match t {
        NameTree::Anon => d.names[p.idx as int] == Name::Anon,
        NameTree::Str(pre, s) => match d.names[p.idx as int] {
            Name::Str(q, r) => {
                &&& name_held(d, q, *pre)
                &&& valid_string(d, r)
                &&& d.strings[r.idx as int] == s
            },
            _ => false,
        },
        NameTree::Num(pre, n) => match (d.names[p.idx as int], n) {
            (Name::Num(q, v), NatTree::Small(w)) => name_held(d, q, *pre) && v == w,
            _ => false,
        },
    }
}

/// Whether `d` holds the level `t` behind `p`.
pub open spec fn level_held(d: DagModel, p: LevelPtr, t: LevelTree) -> bool
    decreases t,
{
    valid_level(d, p) && match t {
        LevelTree::Zero => d.levels[p.idx as int] == Level::Zero,
        LevelTree::Succ(a) => match d.levels[p.idx as int] {
            Level::Succ(q) => level_held(d, q, *a),
            _ => false,
        },
        LevelTree::Max(a, b) => match d.levels[p.idx as int] {
            Level::Max(q, r) => level_held(d, q, *a) && level_held(d, r, *b),
            _ => false,
        },
        LevelTree::IMax(a, b) => match d.levels[p.idx as int] {
            Level::IMax(q, r) => level_held(d, q, *a) && level_held(d, r, *b),
            _ => false,
        },
        LevelTree::Param(n) => match d.levels[p.idx as int] {
            Level::Param(q) => name_held(d, q, n),
            _ => false,
        },
        LevelTree::MVar => false,
    }
}

/// Whether `d` holds the levels `ls` behind `ps`, one by one.
pub open spec fn level_seq_held(d: DagModel, ps: Seq<LevelPtr>, ls: Seq<LevelTree>) -> bool {
    &&& ps.len() == ls.len()
    &&& forall|i: int| 0 <= i < ls.len() ==> level_held(d, #[trigger] ps[i], ls[i])
}

/// Whether `d` holds the sequence of levels `ls` behind `p`.
pub open spec fn levels_held(d: DagModel, p: LevelsPtr, ls: Seq<LevelTree>) -> bool {
    valid_levels(d, p) && level_seq_held(d, d.uparams[p.idx as int], ls)
}

/// Whether the binder style `style` is the one for the annotation `bi`.
pub open spec fn writes(style: BinderStyle, bi: BinderInfo) -> bool {
    match style {
        BinderStyle::Default => bi is Default,
        BinderStyle::Implicit => bi is Implicit,
        BinderStyle::StrictImplicit => bi is StrictImplicit,
        BinderStyle::InstanceImplicit => bi is InstImplicit,
    }
}

/// Whether `d` holds the expression `t` behind `p`. Annotations are not kept,
/// and of a natural number literal only the number is.
pub open spec fn expr_held(d: DagModel, p: ExprPtr, t: ExprTree) -> bool
    decreases t,
{
    let e = d.exprs[p.idx as int];
    valid_expr(d, p) && match t {
        ExprTree::BVar(n) => match (e, n) {
            (Expr::Var { dbj_idx }, NatTree::Small(v)) => dbj_idx == v,
            _ => false,
        },
        ExprTree::Sort(l) => match e {
            Expr::Sort { level } => level_held(d, level, l),
            _ => false,
        },
        ExprTree::Const(n, ls) => match e {
            Expr::Const { name, levels } => name_held(d, name, n) && levels_held(d, levels, ls),
            _ => false,
        },
        ExprTree::App(f, a) => match e {
            Expr::App { fun, arg, .. } => expr_held(d, fun, *f) && expr_held(d, arg, *a),
            _ => false,
        },
        ExprTree::Lambda(n, bi, ty, body) => match e {
            Expr::Lambda { binder_name, binder_style, binder_type, body: b, .. } => {
                &&& name_held(d, binder_name, n)
                &&& writes(binder_style, bi)
                &&& expr_held(d, binder_type, *ty)
                &&& expr_held(d, b, *body)
            },
            _ => false,
        },
        ExprTree::Pi(n, bi, ty, body) => match e {
            Expr::Pi { binder_name, binder_style, binder_type, body: b, .. } => {
                &&& name_held(d, binder_name, n)
                &&& writes(binder_style, bi)
                &&& expr_held(d, binder_type, *ty)
                &&& expr_held(d, b, *body)
            },
            _ => false,
        },
        ExprTree::Let(n, ty, v, body, nd) => match e {
            Expr::Let { binder_name, binder_type, val, body: b, nondep, .. } => {
                &&& name_held(d, binder_name, n)
                &&& expr_held(d, binder_type, *ty)
                &&& expr_held(d, val, *v)
                &&& expr_held(d, b, *body)
                &&& nondep == nd
            },
            _ => false,
        },
        ExprTree::NatLit(n) => match e {
            Expr::NatLit { ptr } => {
                &&& valid_biguint(d, ptr)
                &&& limbs_value(d.bignums->0[ptr.idx as int]) == n.value()
            },
            _ => false,
        },
        ExprTree::StrLit(s) => match e {
            Expr::StringLit { ptr } => valid_string(d, ptr) && d.strings[ptr.idx as int] == s,
            _ => false,
        },
        ExprTree::MData(inner) => expr_held(d, p, *inner),
        ExprTree::Proj(n, i, s) => match (e, i) {
            (Expr::Proj { ty_name, idx, structure, .. }, NatTree::Small(v)) => {
                &&& name_held(d, ty_name, n)
                &&& idx == v
                &&& expr_held(d, structure, *s)
            },
            _ => false,
        },
        ExprTree::FVar => false,
        ExprTree::MVar => false,
    }
}

// ---------------------------------------------------------------------------
// What is held stays
// ---------------------------------------------------------------------------

/// A name stays behind its pointer while the arena grows.
pub proof fn law_name_stays(d: DagModel, e: DagModel, p: NamePtr, t: NameTree)
    requires
        extends(d, e),
        name_held(d, p, t),
    ensures
        name_held(e, p, t),
    decreases t,
{
    lemma_valid_extends(d, e);
    assert(valid_name(e, p));
    match t {
        NameTree::Anon => {},
        NameTree::Str(pre, _) => {
            if let Name::Str(q, r) = d.names[p.idx as int] {
                assert(valid_string(e, r));
                law_name_stays(d, e, q, *pre);
            }
        },
        NameTree::Num(pre, _) => {
            if let Name::Num(q, _) = d.names[p.idx as int] {
                law_name_stays(d, e, q, *pre);
            }
        },
    }
}

/// A level stays behind its pointer while the arena grows.
pub proof fn law_level_stays(d: DagModel, e: DagModel, p: LevelPtr, t: LevelTree)
    requires
        extends(d, e),
        level_held(d, p, t),
    ensures
        level_held(e, p, t),
    decreases t,
{
    lemma_valid_extends(d, e);
    assert(valid_level(e, p));
    match (t, d.levels[p.idx as int]) {
        (LevelTree::Succ(a), Level::Succ(q)) => {
            law_level_stays(d, e, q, *a);
        },
        (LevelTree::Max(a, b), Level::Max(q, r)) => {
            law_level_stays(d, e, q, *a);
            law_level_stays(d, e, r, *b);
        },
        (LevelTree::IMax(a, b), Level::IMax(q, r)) => {
            law_level_stays(d, e, q, *a);
            law_level_stays(d, e, r, *b);
        },
        (LevelTree::Param(n), Level::Param(q)) => {
            law_name_stays(d, e, q, n);
        },
        _ => {},
    }
}

proof fn lemma_level_seq_stays(d: DagModel, e: DagModel, ps: Seq<LevelPtr>, ls: Seq<LevelTree>)
    requires
        extends(d, e),
        level_seq_held(d, ps, ls),
    ensures
        level_seq_held(e, ps, ls),
{
    assert forall|i: int| 0 <= i < ls.len() implies level_held(e, #[trigger] ps[i], ls[i]) by {
        law_level_stays(d, e, ps[i], ls[i]);
    }
}

/// A sequence of levels stays behind its pointer while the arena grows.
pub proof fn law_levels_stay(d: DagModel, e: DagModel, p: LevelsPtr, ls: Seq<LevelTree>)
    requires
        extends(d, e),
        levels_held(d, p, ls),
    ensures
        levels_held(e, p, ls),
{
    lemma_valid_extends(d, e);
    assert(valid_levels(e, p));
    lemma_level_seq_stays(d, e, d.uparams[p.idx as int], ls);
}

/// An expression stays behind its pointer while the arena grows.
pub proof fn law_expr_stays(d: DagModel, e: DagModel, p: ExprPtr, t: ExprTree)
    requires
        extends(d, e),
        expr_held(d, p, t),
    ensures
        expr_held(e, p, t),
    decreases t,
{
    lemma_valid_extends(d, e);
    assert(valid_expr(e, p));
    match (t, d.exprs[p.idx as int]) {
        (ExprTree::Sort(l), Expr::Sort { level }) => {
            law_level_stays(d, e, level, l);
        },
        (ExprTree::Const(n, ls), Expr::Const { name, levels }) => {
            law_name_stays(d, e, name, n);
            law_levels_stay(d, e, levels, ls);
        },
        (ExprTree::App(f, a), Expr::App { fun, arg, .. }) => {
            law_expr_stays(d, e, fun, *f);
            law_expr_stays(d, e, arg, *a);
        },
        (
            ExprTree::Lambda(n, _, ty, body),
            Expr::Lambda { binder_name, binder_type, body: b, .. },
        ) => {
            law_name_stays(d, e, binder_name, n);
            law_expr_stays(d, e, binder_type, *ty);
            law_expr_stays(d, e, b, *body);
        },
        (ExprTree::Pi(n, _, ty, body), Expr::Pi { binder_name, binder_type, body: b, .. }) => {
            law_name_stays(d, e, binder_name, n);
            law_expr_stays(d, e, binder_type, *ty);
            law_expr_stays(d, e, b, *body);
        },
        (
            ExprTree::Let(n, ty, v, body, _),
            Expr::Let { binder_name, binder_type, val, body: b, .. },
        ) => {
            law_name_stays(d, e, binder_name, n);
            law_expr_stays(d, e, binder_type, *ty);
            law_expr_stays(d, e, val, *v);
            law_expr_stays(d, e, b, *body);
        },
        (ExprTree::NatLit(_), Expr::NatLit { ptr }) => {
            assert(valid_biguint(e, ptr));
        },
        (ExprTree::StrLit(_), Expr::StringLit { ptr }) => {
            assert(valid_string(e, ptr));
        },
        (ExprTree::MData(inner), _) => {
            law_expr_stays(d, e, p, *inner);
        },
        (ExprTree::Proj(n, _, s), Expr::Proj { ty_name, structure, .. }) => {
            law_name_stays(d, e, ty_name, n);
            law_expr_stays(d, e, structure, *s);
        },
        _ => {},
    }
}

// ---------------------------------------------------------------------------
// An import puts its term behind its pointer
// ---------------------------------------------------------------------------

/// Whether the anonymous name and the level zero come first.
pub open spec fn based(d: DagModel) -> bool {
    &&& d.names.len() > 0 && d.names[0] == Name::Anon
    &&& d.levels.len() > 0 && d.levels[0] == Level::Zero
}

pub proof fn lemma_based_extends(d: DagModel, e: DagModel)
    requires
        based(d),
        extends(d, e),
    ensures
        based(e),
{
    reveal(extends);
}

proof fn lemma_interned_at<A>(s: Seq<A>, x: A)
    ensures
        0 <= interned_at(s, x) < interned(s, x).len(),
        interned(s, x)[interned_at(s, x)] == x,
{
    let t = interned(s, x);
    if !s.contains(x) {
        assert(t[s.len() as int] == x);
    }
    assert(t.contains(x));
}

proof fn lemma_name_at(d: DagModel, n: Name)
    requires
        fits(put_name(d, n).0),
    ensures
        extends(d, put_name(d, n).0),
        valid_name(put_name(d, n).0, put_name(d, n).1),
        put_name(d, n).0.names[put_name(d, n).1.idx as int] == n,
{
    lemma_put_name_grows(d, n);
    lemma_interned_at(d.names, n);
}

proof fn lemma_level_at(d: DagModel, l: Level)
    requires
        fits(put_level(d, l).0),
    ensures
        extends(d, put_level(d, l).0),
        valid_level(put_level(d, l).0, put_level(d, l).1),
        put_level(d, l).0.levels[put_level(d, l).1.idx as int] == l,
{
    lemma_put_level_grows(d, l);
    lemma_interned_at(d.levels, l);
}

proof fn lemma_expr_at(d: DagModel, x: Expr)
    requires
        fits(put_expr(d, x).0),
    ensures
        extends(d, put_expr(d, x).0),
        valid_expr(put_expr(d, x).0, put_expr(d, x).1),
        put_expr(d, x).0.exprs[put_expr(d, x).1.idx as int] == x,
{
    lemma_put_expr_grows(d, x);
    lemma_interned_at(d.exprs, x);
}

proof fn lemma_string_at(d: DagModel, s: Seq<char>)
    requires
        fits(put_string(d, s).0),
    ensures
        extends(d, put_string(d, s).0),
        valid_string(put_string(d, s).0, put_string(d, s).1),
        put_string(d, s).0.strings[put_string(d, s).1.idx as int] == s,
{
    lemma_put_string_grows(d, s);
    lemma_interned_at(d.strings, s);
}

proof fn lemma_levels_at(d: DagModel, ls: Seq<LevelPtr>)
    requires
        fits(put_levels(d, ls).0),
    ensures
        extends(d, put_levels(d, ls).0),
        valid_levels(put_levels(d, ls).0, put_levels(d, ls).1),
        put_levels(d, ls).0.uparams[put_levels(d, ls).1.idx as int] == ls,
{
    lemma_put_levels_grows(d, ls);
    lemma_interned_at(d.uparams, ls);
}

proof fn lemma_bignum_at(d: DagModel, v: Seq<u64>)
    requires
        fits(put_bignum(d, v).0),
        put_bignum(d, v).1 is Ok,
    ensures
        extends(d, put_bignum(d, v).0),
        valid_biguint(put_bignum(d, v).0, put_bignum(d, v).1->Ok_0),
        put_bignum(d, v).0.bignums->0[put_bignum(d, v).1->Ok_0.idx as int] == v,
{
    lemma_put_bignum_grows(d, v);
    lemma_interned_at(d.bignums->0, v);
}

pub proof fn lemma_name_reads_back(d: DagModel, t: NameTree)
    requires
        based(d),
        fits(add_name(d, t).0),
        add_name(d, t).1 is Ok,
    ensures
        name_held(add_name(d, t).0, add_name(d, t).1->Ok_0, t),
    decreases t,
{
    let e = add_name(d, t).0;
    match t {
        NameTree::Anon => {},
        NameTree::Str(pre, s) => {
            let (d1, r1) = add_name(d, *pre);
            let p = r1->Ok_0;
            let (d2, q) = put_string(d1, s);
            let n = Name::Str(p, q);
            lemma_put_name_grows(d2, n);
            lemma_fits_down(d2, e);
            lemma_name_at(d2, n);
            lemma_string_at(d1, s);
            lemma_valid_extends(d2, e);
            assert(valid_string(e, q));
            lemma_extends_trans(d1, d2, e);
            lemma_fits_down(d1, e);
            lemma_name_reads_back(d, *pre);
            law_name_stays(d1, e, p, *pre);
        },
        NameTree::Num(pre, v) => {
            let (d1, r1) = add_name(d, *pre);
            let p = r1->Ok_0;
            let n = Name::Num(p, v->Small_0);
            lemma_name_at(d1, n);
            lemma_fits_down(d1, e);
            lemma_name_reads_back(d, *pre);
            law_name_stays(d1, e, p, *pre);
        },
    }
}

proof fn lemma_level_reads_back(d: DagModel, t: LevelTree)
    requires
        based(d),
        fits(add_level(d, t).0),
        add_level(d, t).1 is Ok,
    ensures
        level_held(add_level(d, t).0, add_level(d, t).1->Ok_0, t),
    decreases t,
{
    let e = add_level(d, t).0;
    match t {
        LevelTree::Succ(a) => {
            let (d1, r1) = add_level(d, *a);
            lemma_level_at(d1, Level::Succ(r1->Ok_0));
            lemma_level_grows(d, *a);
            lemma_fits_down(d1, e);
            lemma_level_reads_back(d, *a);
            law_level_stays(d1, e, r1->Ok_0, *a);
        },
        LevelTree::Max(a, b) => {
            let (d1, r1) = add_level(d, *a);
            let (d2, r2) = add_level(d1, *b);
            lemma_level_at(d2, Level::Max(r1->Ok_0, r2->Ok_0));
            lemma_level_grows(d1, *b);
            lemma_extends_trans(d1, d2, e);
            lemma_level_grows(d, *a);
            lemma_based_extends(d, d1);
            lemma_fits_down(d1, e);
            lemma_level_reads_back(d, *a);
            law_level_stays(d1, e, r1->Ok_0, *a);
            lemma_fits_down(d2, e);
            lemma_level_reads_back(d1, *b);
            law_level_stays(d2, e, r2->Ok_0, *b);
        },
        LevelTree::IMax(a, b) => {
            let (d1, r1) = add_level(d, *a);
            let (d2, r2) = add_level(d1, *b);
            lemma_level_at(d2, Level::IMax(r1->Ok_0, r2->Ok_0));
            lemma_level_grows(d1, *b);
            lemma_extends_trans(d1, d2, e);
            lemma_level_grows(d, *a);
            lemma_based_extends(d, d1);
            lemma_fits_down(d1, e);
            lemma_level_reads_back(d, *a);
            law_level_stays(d1, e, r1->Ok_0, *a);
            lemma_fits_down(d2, e);
            lemma_level_reads_back(d1, *b);
            law_level_stays(d2, e, r2->Ok_0, *b);
        },
        LevelTree::Param(n) => {
            let (d1, r1) = add_name(d, n);
            lemma_level_at(d1, Level::Param(r1->Ok_0));
            lemma_name_grows(d, n);
            lemma_fits_down(d1, e);
            lemma_name_reads_back(d, n);
            law_name_stays(d1, e, r1->Ok_0, n);
        },
        _ => {},
    }
}

proof fn lemma_level_seq_reads_back(d: DagModel, ls: Seq<LevelTree>)
    requires
        based(d),
        fits(add_level_seq(d, ls).0),
        add_level_seq(d, ls).1 is Ok,
    ensures
        level_seq_held(add_level_seq(d, ls).0, add_level_seq(d, ls).1->Ok_0, ls),
    decreases ls.len(),
{
    if ls.len() > 0 {
        let front = ls.drop_last();
        let e = add_level_seq(d, ls).0;
        let (d1, r1) = add_level_seq(d, front);
        let (d2, r2) = add_level(d1, ls.last());
        lemma_level_seq_grows(d, front);
        lemma_level_grows(d1, ls.last());
        lemma_fits_down(d1, e);
        lemma_based_extends(d, d1);
        lemma_level_seq_reads_back(d, front);
        lemma_level_reads_back(d1, ls.last());
        lemma_level_seq_stays(d1, e, r1->Ok_0, front);
        let ps = add_level_seq(d, ls).1->Ok_0;
        assert forall|i: int| 0 <= i < ls.len() implies level_held(e, #[trigger] ps[i], ls[i]) by {
            if i < front.len() {
                assert(level_held(e, r1->Ok_0[i], front[i]));
            }
        }
    }
}

proof fn lemma_levels_read_back(d: DagModel, ls: Seq<LevelTree>)
    requires
        based(d),
        fits(add_levels(d, ls).0),
        add_levels(d, ls).1 is Ok,
    ensures
        levels_held(add_levels(d, ls).0, add_levels(d, ls).1->Ok_0, ls),
{
    let e = add_levels(d, ls).0;
    let (d1, r1) = add_level_seq(d, ls);
    lemma_levels_at(d1, r1->Ok_0);
    lemma_fits_down(d1, e);
    lemma_level_seq_reads_back(d, ls);
    lemma_level_seq_stays(d1, e, r1->Ok_0, ls);
}

pub proof fn lemma_expr_reads_back(d: DagModel, nat_ext: bool, str_ext: bool, t: ExprTree)
    requires
        based(d),
        fits(add_expr(d, nat_ext, str_ext, t).0),
        add_expr(d, nat_ext, str_ext, t).1 is Ok,
    ensures
        expr_held(
            add_expr(d, nat_ext, str_ext, t).0,
            add_expr(d, nat_ext, str_ext, t).1->Ok_0,
            t,
        ),
    decreases t,
{
    let e = add_expr(d, nat_ext, str_ext, t).0;
    lemma_add_expr(d, nat_ext, str_ext, t);
    match t {
        ExprTree::BVar(n) => {
            lemma_expr_at(d, Expr::Var { dbj_idx: n->Small_0 as u16 });
        },
        ExprTree::Sort(l) => {
            let (d1, r1) = add_level(d, l);
            lemma_expr_at(d1, Expr::Sort { level: r1->Ok_0 });
            lemma_level_grows(d, l);
            lemma_fits_down(d1, e);
            lemma_level_reads_back(d, l);
            law_level_stays(d1, e, r1->Ok_0, l);
        },
        ExprTree::Const(n, ls) => {
            let (d1, r1) = add_name(d, n);
            let (d2, r2) = add_levels(d1, ls);
            lemma_expr_at(d2, Expr::Const { name: r1->Ok_0, levels: r2->Ok_0 });
            lemma_levels_grow(d1, ls);
            lemma_extends_trans(d1, d2, e);
            lemma_name_grows(d, n);
            lemma_based_extends(d, d1);
            lemma_fits_down(d1, e);
            lemma_name_reads_back(d, n);
            law_name_stays(d1, e, r1->Ok_0, n);
            lemma_fits_down(d2, e);
            lemma_levels_read_back(d1, ls);
            law_levels_stay(d2, e, r2->Ok_0, ls);
        },
        ExprTree::App(f, a) => {
            let (d1, r1) = add_expr(d, nat_ext, str_ext, *f);
            let (d2, r2) = add_expr(d1, nat_ext, str_ext, *a);
            lemma_expr_at(d2, app_node(d2, r1->Ok_0, r2->Ok_0));
            lemma_expr_grows(d1, nat_ext, str_ext, *a);
            lemma_extends_trans(d1, d2, e);
            lemma_expr_grows(d, nat_ext, str_ext, *f);
            lemma_based_extends(d, d1);
            lemma_fits_down(d1, e);
            lemma_expr_reads_back(d, nat_ext, str_ext, *f);
            law_expr_stays(d1, e, r1->Ok_0, *f);
            lemma_fits_down(d2, e);
            lemma_expr_reads_back(d1, nat_ext, str_ext, *a);
            law_expr_stays(d2, e, r2->Ok_0, *a);
        },
        ExprTree::Lambda(n, bi, ty, body) => {
            let (d1, r1) = add_name(d, n);
            let (d2, r2) = add_expr(d1, nat_ext, str_ext, *ty);
            let (d3, r3) = add_expr(d2, nat_ext, str_ext, *body);
            lemma_expr_at(
                d3,
                binding_node(d3, false, r1->Ok_0, style_of(bi), r2->Ok_0, r3->Ok_0),
            );
            lemma_expr_grows(d2, nat_ext, str_ext, *body);
            lemma_extends_trans(d2, d3, e);
            lemma_expr_grows(d1, nat_ext, str_ext, *ty);
            lemma_extends_trans(d1, d2, e);
            lemma_name_grows(d, n);
            lemma_based_extends(d, d1);
            lemma_based_extends(d1, d2);
            lemma_fits_down(d1, e);
            lemma_name_reads_back(d, n);
            law_name_stays(d1, e, r1->Ok_0, n);
            lemma_fits_down(d2, e);
            lemma_expr_reads_back(d1, nat_ext, str_ext, *ty);
            law_expr_stays(d2, e, r2->Ok_0, *ty);
            lemma_fits_down(d3, e);
            lemma_expr_reads_back(d2, nat_ext, str_ext, *body);
            law_expr_stays(d3, e, r3->Ok_0, *body);
        },
        ExprTree::Pi(n, bi, ty, body) => {
            let (d1, r1) = add_name(d, n);
            let (d2, r2) = add_expr(d1, nat_ext, str_ext, *ty);
            let (d3, r3) = add_expr(d2, nat_ext, str_ext, *body);
            lemma_expr_at(
                d3,
                binding_node(d3, true, r1->Ok_0, style_of(bi), r2->Ok_0, r3->Ok_0),
            );
            lemma_expr_grows(d2, nat_ext, str_ext, *body);
            lemma_extends_trans(d2, d3, e);
            lemma_expr_grows(d1, nat_ext, str_ext, *ty);
            lemma_extends_trans(d1, d2, e);
            lemma_name_grows(d, n);
            lemma_based_extends(d, d1);
            lemma_based_extends(d1, d2);
            lemma_fits_down(d1, e);
            lemma_name_reads_back(d, n);
            law_name_stays(d1, e, r1->Ok_0, n);
            lemma_fits_down(d2, e);
            lemma_expr_reads_back(d1, nat_ext, str_ext, *ty);
            law_expr_stays(d2, e, r2->Ok_0, *ty);
            lemma_fits_down(d3, e);
            lemma_expr_reads_back(d2, nat_ext, str_ext, *body);
            law_expr_stays(d3, e, r3->Ok_0, *body);
        },
        ExprTree::Let(n, ty, val, body, nondep) => {
            let (d1, r1) = add_name(d, n);
            let (d2, r2) = add_expr(d1, nat_ext, str_ext, *ty);
            let (d3, r3) = add_expr(d2, nat_ext, str_ext, *val);
            let (d4, r4) = add_expr(d3, nat_ext, str_ext, *body);
            lemma_expr_at(
                d4,
                let_node(d4, r1->Ok_0, r2->Ok_0, r3->Ok_0, r4->Ok_0, nondep),
            );
            lemma_expr_grows(d3, nat_ext, str_ext, *body);
            lemma_extends_trans(d3, d4, e);
            lemma_expr_grows(d2, nat_ext, str_ext, *val);
            lemma_extends_trans(d2, d3, e);
            lemma_expr_grows(d1, nat_ext, str_ext, *ty);
            lemma_extends_trans(d1, d2, e);
            lemma_name_grows(d, n);
            lemma_based_extends(d, d1);
            lemma_based_extends(d1, d2);
            lemma_based_extends(d2, d3);
            lemma_fits_down(d1, e);
            lemma_name_reads_back(d, n);
            law_name_stays(d1, e, r1->Ok_0, n);
            lemma_fits_down(d2, e);
            lemma_expr_reads_back(d1, nat_ext, str_ext, *ty);
            law_expr_stays(d2, e, r2->Ok_0, *ty);
            lemma_fits_down(d3, e);
            lemma_expr_reads_back(d2, nat_ext, str_ext, *val);
            law_expr_stays(d3, e, r3->Ok_0, *val);
            lemma_fits_down(d4, e);
            lemma_expr_reads_back(d3, nat_ext, str_ext, *body);
            law_expr_stays(d4, e, r4->Ok_0, *body);
        },
        ExprTree::NatLit(n) => {
            let v = limbs_of(n.value());
            law_limbs_roundtrip(n.value());
            let (d1, r1) = put_bignum(d, v);
            lemma_expr_at(d1, Expr::NatLit { ptr: r1->Ok_0 });
            lemma_fits_down(d1, e);
            lemma_bignum_at(d, v);
            lemma_valid_extends(d1, e);
            assert(valid_biguint(e, r1->Ok_0));
        },
        ExprTree::StrLit(s) => {
            let (d1, p) = put_string(d, s);
            lemma_expr_at(d1, Expr::StringLit { ptr: p });
            lemma_fits_down(d1, e);
            lemma_string_at(d, s);
            lemma_valid_extends(d1, e);
            assert(valid_string(e, p));
        },
        ExprTree::MData(inner) => {
            lemma_expr_reads_back(d, nat_ext, str_ext, *inner);
        },
        ExprTree::Proj(n, i, s) => {
            let (d1, r1) = add_name(d, n);
            let (d2, r2) = add_expr(d1, nat_ext, str_ext, *s);
            lemma_expr_at(d2, proj_node(d2, r1->Ok_0, i->Small_0, r2->Ok_0));
            lemma_expr_grows(d1, nat_ext, str_ext, *s);
            lemma_extends_trans(d1, d2, e);
            lemma_name_grows(d, n);
            lemma_based_extends(d, d1);
            lemma_fits_down(d1, e);
            lemma_name_reads_back(d, n);
            law_name_stays(d1, e, r1->Ok_0, n);
            lemma_fits_down(d2, e);
            lemma_expr_reads_back(d1, nat_ext, str_ext, *s);
            law_expr_stays(d2, e, r2->Ok_0, *s);
        },
        ExprTree::FVar => {},
        ExprTree::MVar => {},
    }
}

/// What is imported can be read back: an import that succeeds leaves an arena
/// that holds the name behind the pointer.
pub proof fn law_name_reads_back(d: DagModel, t: NameTree)
    requires
        wf(d),
        fits(add_name(d, t).0),
        add_name(d, t).1 is Ok,
    ensures
        name_held(add_name(d, t).0, add_name(d, t).1->Ok_0, t),
{
    reveal(wf);
    lemma_name_reads_back(d, t);
}

/// What is imported can be read back: an import that succeeds leaves an arena
/// that holds the level behind the pointer.
pub proof fn law_level_reads_back(d: DagModel, t: LevelTree)
    requires
        wf(d),
        fits(add_level(d, t).0),
        add_level(d, t).1 is Ok,
    ensures
        level_held(add_level(d, t).0, add_level(d, t).1->Ok_0, t),
{
    reveal(wf);
    lemma_level_reads_back(d, t);
}

/// What is imported can be read back: an import that succeeds leaves an arena
/// that holds the levels, in order, behind the pointer. Level parameters given
/// by name are levels of their own.
pub proof fn law_levels_read_back(d: DagModel, ls: Seq<LevelTree>)
    requires
        wf(d),
        fits(add_levels(d, ls).0),
        add_levels(d, ls).1 is Ok,
    ensures
        levels_held(add_levels(d, ls).0, add_levels(d, ls).1->Ok_0, ls),
{
    reveal(wf);
    lemma_levels_read_back(d, ls);
}

/// What is imported can be read back: an import that succeeds leaves an arena
/// that holds the expression behind the pointer.
pub proof fn law_expr_reads_back(d: DagModel, nat_ext: bool, str_ext: bool, t: ExprTree)
    requires
        wf(d),
        fits(add_expr(d, nat_ext, str_ext, t).0),
        add_expr(d, nat_ext, str_ext, t).1 is Ok,
    ensures
        expr_held(
            add_expr(d, nat_ext, str_ext, t).0,
            add_expr(d, nat_ext, str_ext, t).1->Ok_0,
            t,
        ),
{
    reveal(wf);
    lemma_expr_reads_back(d, nat_ext, str_ext, t);
}

// ---------------------------------------------------------------------------
// One pointer for one term
// ---------------------------------------------------------------------------

/// The expression `t` without its annotations, and with its natural number
/// literals as numbers alone.
pub open spec fn bare(t: ExprTree) -> ExprTree
    decreases t,
{
    match t {
        ExprTree::App(f, a) => ExprTree::App(Box::new(bare(*f)), Box::new(bare(*a))),
        ExprTree::Lambda(n, bi, ty, body) => ExprTree::Lambda(
            n,
            bi,
            Box::new(bare(*ty)),
            Box::new(bare(*body)),
        ),
        ExprTree::Pi(n, bi, ty, body) => ExprTree::Pi(
            n,
            bi,
            Box::new(bare(*ty)),
            Box::new(bare(*body)),
        ),
        ExprTree::Let(n, ty, val, body, nondep) => ExprTree::Let(
            n,
            Box::new(bare(*ty)),
            Box::new(bare(*val)),
            Box::new(bare(*body)),
            nondep,
        ),
        ExprTree::NatLit(n) => ExprTree::NatLit(NatTree::Big(n.value())),
        ExprTree::MData(e) => bare(*e),
        ExprTree::Proj(n, i, e) => ExprTree::Proj(n, i, Box::new(bare(*e))),
        _ => t,
    }
}

/// Annotations, and the way in which a natural number literal is stored, make
/// no difference to an import.
#[verifier::spinoff_prover]
#[verifier::rlimit(40)]
pub proof fn law_import_is_bare(d: DagModel, nat_ext: bool, str_ext: bool, t: ExprTree)
    ensures
        add_expr(d, nat_ext, str_ext, t) == add_expr(d, nat_ext, str_ext, bare(t)),
    decreases t,
{
    lemma_add_expr(d, nat_ext, str_ext, t);
    lemma_add_expr(d, nat_ext, str_ext, bare(t));
    match t {
        ExprTree::App(f, a) => {
            law_import_is_bare(d, nat_ext, str_ext, *f);
            law_import_is_bare(add_expr(d, nat_ext, str_ext, *f).0, nat_ext, str_ext, *a);
        },
        ExprTree::Lambda(n, _, ty, body) => {
            let d1 = add_name(d, n).0;
            law_import_is_bare(d1, nat_ext, str_ext, *ty);
            law_import_is_bare(add_expr(d1, nat_ext, str_ext, *ty).0, nat_ext, str_ext, *body);
        },
        ExprTree::Pi(n, _, ty, body) => {
            let d1 = add_name(d, n).0;
            law_import_is_bare(d1, nat_ext, str_ext, *ty);
            law_import_is_bare(add_expr(d1, nat_ext, str_ext, *ty).0, nat_ext, str_ext, *body);
        },
        ExprTree::Let(n, ty, val, body, _) => {
            let d1 = add_name(d, n).0;
            let d2 = add_expr(d1, nat_ext, str_ext, *ty).0;
            let d3 = add_expr(d2, nat_ext, str_ext, *val).0;
            law_import_is_bare(d1, nat_ext, str_ext, *ty);
            law_import_is_bare(d2, nat_ext, str_ext, *val);
            law_import_is_bare(d3, nat_ext, str_ext, *body);
        },
        ExprTree::MData(e) => {
            law_import_is_bare(d, nat_ext, str_ext, *e);
        },
        ExprTree::Proj(n, _, e) => {
            law_import_is_bare(add_name(d, n).0, nat_ext, str_ext, *e);
        },
        _ => {},
    }
}

/// Annotations, and the way in which a natural number literal is stored, make
/// no difference to what an arena holds.
proof fn lemma_held_bare(d: DagModel, p: ExprPtr, t: ExprTree)
    requires
        expr_held(d, p, t),
    ensures
        expr_held(d, p, bare(t)),
    decreases t,
{
    match (t, d.exprs[p.idx as int]) {
        (ExprTree::App(f, a), Expr::App { fun, arg, .. }) => {
            lemma_held_bare(d, fun, *f);
            lemma_held_bare(d, arg, *a);
        },
        (ExprTree::Lambda(_, _, ty, body), Expr::Lambda { binder_type, body: b, .. }) => {
            lemma_held_bare(d, binder_type, *ty);
            lemma_held_bare(d, b, *body);
        },
        (ExprTree::Pi(_, _, ty, body), Expr::Pi { binder_type, body: b, .. }) => {
            lemma_held_bare(d, binder_type, *ty);
            lemma_held_bare(d, b, *body);
        },
        (ExprTree::Let(_, ty, v, body, _), Expr::Let { binder_type, val, body: b, .. }) => {
            lemma_held_bare(d, binder_type, *ty);
            lemma_held_bare(d, val, *v);
            lemma_held_bare(d, b, *body);
        },
        (ExprTree::MData(e), _) => {
            lemma_held_bare(d, p, *e);
        },
        (ExprTree::Proj(_, _, e), Expr::Proj { structure, .. }) => {
            lemma_held_bare(d, structure, *e);
        },
        _ => {},
    }
}

proof fn lemma_name_alike(d: DagModel, p: NamePtr, t: NameTree, u: NameTree)
    requires
        name_held(d, p, t),
        name_held(d, p, u),
    ensures
        t == u,
    decreases t,
{
    match (t, u, d.names[p.idx as int]) {
        (NameTree::Str(a, _), NameTree::Str(b, _), Name::Str(q, _)) => {
            lemma_name_alike(d, q, *a, *b);
        },
        (NameTree::Num(a, _), NameTree::Num(b, _), Name::Num(q, _)) => {
            lemma_name_alike(d, q, *a, *b);
        },
        _ => {},
    }
}

proof fn lemma_level_alike(d: DagModel, p: LevelPtr, t: LevelTree, u: LevelTree)
    requires
        level_held(d, p, t),
        level_held(d, p, u),
    ensures
        t == u,
    decreases t,
{
    match (t, u, d.levels[p.idx as int]) {
        (LevelTree::Succ(a), LevelTree::Succ(b), Level::Succ(q)) => {
            lemma_level_alike(d, q, *a, *b);
        },
        (LevelTree::Max(a, b), LevelTree::Max(x, y), Level::Max(q, r)) => {
            lemma_level_alike(d, q, *a, *x);
            lemma_level_alike(d, r, *b, *y);
        },
        (LevelTree::IMax(a, b), LevelTree::IMax(x, y), Level::IMax(q, r)) => {
            lemma_level_alike(d, q, *a, *x);
            lemma_level_alike(d, r, *b, *y);
        },
        (LevelTree::Param(a), LevelTree::Param(b), Level::Param(q)) => {
            lemma_name_alike(d, q, a, b);
        },
        _ => {},
    }
}

proof fn lemma_levels_alike(d: DagModel, p: LevelsPtr, ls: Seq<LevelTree>, us: Seq<LevelTree>)
    requires
        levels_held(d, p, ls),
        levels_held(d, p, us),
    ensures
        ls == us,
{
    let ps = d.uparams[p.idx as int];
    assert forall|i: int| 0 <= i < ls.len() implies ls[i] == us[i] by {
        assert(level_held(d, ps[i], ls[i]) && level_held(d, ps[i], us[i]));
        lemma_level_alike(d, ps[i], ls[i], us[i]);
    }
    assert(ls =~= us);
}

/// Two bare expressions behind one pointer are the same.
proof fn lemma_bare_alike(d: DagModel, p: ExprPtr, t: ExprTree, u: ExprTree)
    requires
        expr_held(d, p, t),
        expr_held(d, p, u),
        bare(t) == t,
        bare(u) == u,
    ensures
        t == u,
    decreases t,
{
    lemma_not_mdata(t);
    lemma_not_mdata(u);
    match (t, u, d.exprs[p.idx as int]) {
        (ExprTree::Sort(a), ExprTree::Sort(b), Expr::Sort { level }) => {
            lemma_level_alike(d, level, a, b);
        },
        (ExprTree::Const(a, ls), ExprTree::Const(b, us), Expr::Const { name, levels }) => {
            lemma_name_alike(d, name, a, b);
            lemma_levels_alike(d, levels, ls, us);
        },
        (ExprTree::App(f, a), ExprTree::App(g, b), Expr::App { fun, arg, .. }) => {
            lemma_bare_alike(d, fun, *f, *g);
            lemma_bare_alike(d, arg, *a, *b);
        },
        (
            ExprTree::Lambda(n, bi, ty, body),
            ExprTree::Lambda(k, bj, uty, ubody),
            Expr::Lambda { binder_name, binder_type, body: b, .. },
        ) => {
            lemma_name_alike(d, binder_name, n, k);
            lemma_bare_alike(d, binder_type, *ty, *uty);
            lemma_bare_alike(d, b, *body, *ubody);
        },
        (
            ExprTree::Pi(n, bi, ty, body),
            ExprTree::Pi(k, bj, uty, ubody),
            Expr::Pi { binder_name, binder_type, body: b, .. },
        ) => {
            lemma_name_alike(d, binder_name, n, k);
            lemma_bare_alike(d, binder_type, *ty, *uty);
            lemma_bare_alike(d, b, *body, *ubody);
        },
        (
            ExprTree::Let(n, ty, v, body, _),
            ExprTree::Let(k, uty, uv, ubody, _),
            Expr::Let { binder_name, binder_type, val, body: b, .. },
        ) => {
            lemma_name_alike(d, binder_name, n, k);
            lemma_bare_alike(d, binder_type, *ty, *uty);
            lemma_bare_alike(d, val, *v, *uv);
            lemma_bare_alike(d, b, *body, *ubody);
        },
        (ExprTree::NatLit(a), ExprTree::NatLit(b), Expr::NatLit { ptr }) => {
        },
        (
            ExprTree::Proj(n, _, e),
            ExprTree::Proj(k, _, ue),
            Expr::Proj { ty_name, structure, .. },
        ) => {
            lemma_name_alike(d, ty_name, n, k);
            lemma_bare_alike(d, structure, *e, *ue);
        },
        _ => {},
    }
}

/// A bare expression is no annotation.
proof fn lemma_not_mdata(t: ExprTree)
    ensures
        !(bare(t) is MData),
        bare(bare(t)) == bare(t),
    decreases t,
{
    match t {
        ExprTree::App(f, a) => {
            lemma_not_mdata(*f);
            lemma_not_mdata(*a);
        },
        ExprTree::Lambda(_, _, ty, body) => {
            lemma_not_mdata(*ty);
            lemma_not_mdata(*body);
        },
        ExprTree::Pi(_, _, ty, body) => {
            lemma_not_mdata(*ty);
            lemma_not_mdata(*body);
        },
        ExprTree::Let(_, ty, val, body, _) => {
            lemma_not_mdata(*ty);
            lemma_not_mdata(*val);
            lemma_not_mdata(*body);
        },
        ExprTree::MData(e) => {
            lemma_not_mdata(*e);
        },
        ExprTree::Proj(_, _, e) => {
            lemma_not_mdata(*e);
        },
        _ => {},
    }
}

proof fn lemma_same_name(d: DagModel, p: NamePtr, q: NamePtr, t: NameTree)
    requires
        wf(d),
        name_held(d, p, t),
        name_held(d, q, t),
    ensures
        p == q,
    decreases t,
{
    match (t, d.names[p.idx as int], d.names[q.idx as int]) {
        (NameTree::Str(pre, _), Name::Str(a, s), Name::Str(b, r)) => {
            lemma_same_name(d, a, b, *pre);
            assert(s == r) by {
                reveal(wf);
            }
        },
        (NameTree::Num(pre, _), Name::Num(a, _), Name::Num(b, _)) => {
            lemma_same_name(d, a, b, *pre);
        },
        _ => {},
    }
    reveal(wf);
}

proof fn lemma_same_level(d: DagModel, p: LevelPtr, q: LevelPtr, t: LevelTree)
    requires
        wf(d),
        level_held(d, p, t),
        level_held(d, q, t),
    ensures
        p == q,
    decreases t,
{
    match (t, d.levels[p.idx as int], d.levels[q.idx as int]) {
        (LevelTree::Succ(a), Level::Succ(x), Level::Succ(y)) => {
            lemma_same_level(d, x, y, *a);
        },
        (LevelTree::Max(a, b), Level::Max(x, u), Level::Max(y, v)) => {
            lemma_same_level(d, x, y, *a);
            lemma_same_level(d, u, v, *b);
        },
        (LevelTree::IMax(a, b), Level::IMax(x, u), Level::IMax(y, v)) => {
            lemma_same_level(d, x, y, *a);
            lemma_same_level(d, u, v, *b);
        },
        (LevelTree::Param(n), Level::Param(x), Level::Param(y)) => {
            lemma_same_name(d, x, y, n);
        },
        _ => {},
    }
    reveal(wf);
}

proof fn lemma_same_levels(d: DagModel, p: LevelsPtr, q: LevelsPtr, ls: Seq<LevelTree>)
    requires
        wf(d),
        levels_held(d, p, ls),
        levels_held(d, q, ls),
    ensures
        p == q,
{
    let ps = d.uparams[p.idx as int];
    let qs = d.uparams[q.idx as int];
    assert forall|i: int| 0 <= i < ls.len() implies ps[i] == qs[i] by {
        assert(level_held(d, ps[i], ls[i]) && level_held(d, qs[i], ls[i]));
        lemma_same_level(d, ps[i], qs[i], ls[i]);
    }
    assert(ps =~= qs);
    reveal(wf);
}

/// A node carries what its subexpressions say.
proof fn lemma_node(d: DagModel, p: ExprPtr)
    requires
        wf(d),
        valid_expr(d, p),
    ensures
        expr_ok(d, d.exprs[p.idx as int], p.idx as int),
        forall|q: ExprPtr|
            valid_expr(d, q) && #[trigger] d.exprs[q.idx as int] == d.exprs[p.idx as int] ==> p
                == q,
{
    reveal(wf);
}

proof fn lemma_same_expr(d: DagModel, p: ExprPtr, q: ExprPtr, t: ExprTree)
    requires
        wf(d),
        expr_held(d, p, t),
        expr_held(d, q, t),
    ensures
        p == q,
    decreases t,
{
    lemma_node(d, p);
    lemma_node(d, q);
    match (t, d.exprs[p.idx as int], d.exprs[q.idx as int]) {
        (ExprTree::Sort(l), Expr::Sort { level: x }, Expr::Sort { level: y }) => {
            lemma_same_level(d, x, y, l);
        },
        (
            ExprTree::Const(n, ls),
            Expr::Const { name: x, levels: u },
            Expr::Const { name: y, levels: v },
        ) => {
            lemma_same_name(d, x, y, n);
            lemma_same_levels(d, u, v, ls);
        },
        (
            ExprTree::App(f, a),
            Expr::App { fun: x, arg: u, .. },
            Expr::App { fun: y, arg: v, .. },
        ) => {
            lemma_same_expr(d, x, y, *f);
            lemma_same_expr(d, u, v, *a);
        },
        (
            ExprTree::Lambda(n, _, ty, body),
            Expr::Lambda { binder_name: x, binder_type: u, body: a, .. },
            Expr::Lambda { binder_name: y, binder_type: v, body: b, .. },
        ) => {
            lemma_same_name(d, x, y, n);
            lemma_same_expr(d, u, v, *ty);
            lemma_same_expr(d, a, b, *body);
        },
        (
            ExprTree::Pi(n, _, ty, body),
            Expr::Pi { binder_name: x, binder_type: u, body: a, .. },
            Expr::Pi { binder_name: y, binder_type: v, body: b, .. },
        ) => {
            lemma_same_name(d, x, y, n);
            lemma_same_expr(d, u, v, *ty);
            lemma_same_expr(d, a, b, *body);
        },
        (
            ExprTree::Let(n, ty, val, body, _),
            Expr::Let { binder_name: x, binder_type: u, val: w, body: a, .. },
            Expr::Let { binder_name: y, binder_type: v, val: z, body: b, .. },
        ) => {
            lemma_same_name(d, x, y, n);
            lemma_same_expr(d, u, v, *ty);
            lemma_same_expr(d, w, z, *val);
            lemma_same_expr(d, a, b, *body);
        },
        (ExprTree::NatLit(_), Expr::NatLit { ptr: x }, Expr::NatLit { ptr: y }) => {
            assert(x == y) by {
                reveal(wf);
            }
        },
        (ExprTree::StrLit(_), Expr::StringLit { ptr: x }, Expr::StringLit { ptr: y }) => {
            assert(x == y) by {
                reveal(wf);
            }
        },
        (ExprTree::MData(e), _, _) => {
            lemma_same_expr(d, p, q, *e);
        },
        (
            ExprTree::Proj(n, _, e),
            Expr::Proj { ty_name: x, structure: u, .. },
            Expr::Proj { ty_name: y, structure: v, .. },
        ) => {
            lemma_same_name(d, x, y, n);
            lemma_same_expr(d, u, v, *e);
        },
        _ => {},
    }
}

/// One pointer for one name: in an arena two names are the same exactly where
/// the pointers are.
pub proof fn law_one_name_pointer(
    d: DagModel,
    p: NamePtr,
    t: NameTree,
    q: NamePtr,
    u: NameTree,
)
    requires
        wf(d),
        name_held(d, p, t),
        name_held(d, q, u),
    ensures
        p == q <==> t == u,
{
    if p == q {
        lemma_name_alike(d, p, t, u);
    } else if t == u {
        lemma_same_name(d, p, q, t);
    }
}

/// One pointer for one level: in an arena two levels are the same exactly where
/// the pointers are.
pub proof fn law_one_level_pointer(
    d: DagModel,
    p: LevelPtr,
    t: LevelTree,
    q: LevelPtr,
    u: LevelTree,
)
    requires
        wf(d),
        level_held(d, p, t),
        level_held(d, q, u),
    ensures
        p == q <==> t == u,
{
    if p == q {
        lemma_level_alike(d, p, t, u);
    } else if t == u {
        lemma_same_level(d, p, q, t);
    }
}

/// One pointer for one sequence of levels: in an arena two sequences are the
/// same exactly where the pointers are.
pub proof fn law_one_levels_pointer(
    d: DagModel,
    p: LevelsPtr,
    ls: Seq<LevelTree>,
    q: LevelsPtr,
    us: Seq<LevelTree>,
)
    requires
        wf(d),
        levels_held(d, p, ls),
        levels_held(d, q, us),
    ensures
        p == q <==> ls == us,
{
    if p == q {
        lemma_levels_alike(d, p, ls, us);
    } else if ls == us {
        lemma_same_levels(d, p, q, ls);
    }
}

/// One pointer for one expression: in an arena two expressions are the same,
/// but for annotations, exactly where the pointers are.
pub proof fn law_one_expr_pointer(
    d: DagModel,
    p: ExprPtr,
    t: ExprTree,
    q: ExprPtr,
    u: ExprTree,
)
    requires
        wf(d),
        expr_held(d, p, t),
        expr_held(d, q, u),
    ensures
        p == q <==> bare(t) == bare(u),
{
    lemma_held_bare(d, p, t);
    lemma_held_bare(d, q, u);
    lemma_not_mdata(t);
    lemma_not_mdata(u);
    if p == q {
        lemma_bare_alike(d, p, bare(t), bare(u));
    } else if bare(t) == bare(u) {
        lemma_same_expr(d, p, q, bare(t));
    }
}

/// What was imported is not imported again: once a name was imported, a later
/// import of it into the arena, however it has grown, adds nothing and gives
/// the same pointer.
pub proof fn law_name_import_once(d: DagModel, t: NameTree, later: DagModel)
    requires
        wf(d),
        fits(add_name(d, t).0),
        add_name(d, t).1 is Ok,
        extends(add_name(d, t).0, later),
        wf(later),
    ensures
        add_name(later, t) == (later, add_name(d, t).1),
{
    lemma_name_settles(d, t, later);
}

/// What was imported is not imported again: once a level was imported, a later
/// import of it into the arena, however it has grown, adds nothing and gives
/// the same pointer.
pub proof fn law_level_import_once(d: DagModel, t: LevelTree, later: DagModel)
    requires
        wf(d),
        fits(add_level(d, t).0),
        add_level(d, t).1 is Ok,
        extends(add_level(d, t).0, later),
        wf(later),
    ensures
        add_level(later, t) == (later, add_level(d, t).1),
{
    lemma_level_settles(d, t, later);
}

/// What was imported is not imported again: once a sequence of levels was
/// imported, a later import of it into the arena, however it has grown, adds
/// nothing and gives the same pointer.
pub proof fn law_levels_import_once(d: DagModel, ls: Seq<LevelTree>, later: DagModel)
    requires
        wf(d),
        fits(add_levels(d, ls).0),
        add_levels(d, ls).1 is Ok,
        extends(add_levels(d, ls).0, later),
        wf(later),
    ensures
        add_levels(later, ls) == (later, add_levels(d, ls).1),
{
    lemma_levels_settle(d, ls, later);
}

/// What was imported is not imported again: once an expression was imported, a
/// later import of it into the arena, however it has grown, adds nothing and
/// gives the same pointer.
pub proof fn law_import_once(
    d: DagModel,
    nat_ext: bool,
    str_ext: bool,
    t: ExprTree,
    later: DagModel,
)
    requires
        wf(d),
        fits(add_expr(d, nat_ext, str_ext, t).0),
        add_expr(d, nat_ext, str_ext, t).1 is Ok,
        extends(add_expr(d, nat_ext, str_ext, t).0, later),
        wf(later),
    ensures
        add_expr(later, nat_ext, str_ext, t) == (later, add_expr(d, nat_ext, str_ext, t).1),
{
    lemma_expr_settles(d, nat_ext, str_ext, t, later);
}

// ---------------------------------------------------------------------------
// What a node says of the term below it
// ---------------------------------------------------------------------------

/// The larger of two numbers.
pub open spec fn larger(a: nat, b: nat) -> nat {
    if a >= b {
        a
    } else {
        b
    }
}

/// The number of binders that would close the expression `t`: one more than
/// the largest number of a variable that no binder of `t` binds, counted from
/// outside `t`, or 0.
pub open spec fn open_binders(t: ExprTree) -> nat
    decreases t,
{
    match t {
        ExprTree::BVar(n) => n.value() + 1,
        ExprTree::App(f, a) => larger(open_binders(*f), open_binders(*a)),
        ExprTree::Lambda(_, _, ty, body) => larger(
            open_binders(*ty),
            one_less(open_binders(*body)),
        ),
        ExprTree::Pi(_, _, ty, body) => larger(open_binders(*ty), one_less(open_binders(*body))),
        ExprTree::Let(_, ty, val, body, _) => larger(
            open_binders(*ty),
            larger(open_binders(*val), one_less(open_binders(*body))),
        ),
        ExprTree::MData(e) => open_binders(*e),
        ExprTree::Proj(_, _, e) => open_binders(*e),
        _ => 0,
    }
}

/// One less, or zero.
pub open spec fn one_less(n: nat) -> nat {
    if n == 0 {
        0
    } else {
        (n - 1) as nat
    }
}

/// Whether the variable with the number `k`, counted from outside `t`, occurs
/// in the expression `t`.
pub open spec fn free_in(t: ExprTree, k: nat) -> bool
    decreases t,
{
    match t {
        ExprTree::BVar(n) => n.value() == k,
        ExprTree::App(f, a) => free_in(*f, k) || free_in(*a, k),
        ExprTree::Lambda(_, _, ty, body) => free_in(*ty, k) || free_in(*body, k + 1),
        ExprTree::Pi(_, _, ty, body) => free_in(*ty, k) || free_in(*body, k + 1),
        ExprTree::Let(_, ty, val, body, _) => {
            ||| free_in(*ty, k)
            ||| free_in(*val, k)
            ||| free_in(*body, k + 1)
        },
        ExprTree::MData(e) => free_in(*e, k),
        ExprTree::Proj(_, _, e) => free_in(*e, k),
        _ => false,
    }
}

/// The number of binders that would close an expression is the least one: all
/// variables that occur are below it, and the one just below it occurs.
pub proof fn law_open_binders(t: ExprTree, k: nat)
    ensures
        free_in(t, k) ==> k < open_binders(t),
        open_binders(t) == k + 1 ==> free_in(t, k),
    decreases t,
{
    match t {
        ExprTree::App(f, a) => {
            law_open_binders(*f, k);
            law_open_binders(*a, k);
        },
        ExprTree::Lambda(_, _, ty, body) => {
            law_open_binders(*ty, k);
            law_open_binders(*body, k + 1);
        },
        ExprTree::Pi(_, _, ty, body) => {
            law_open_binders(*ty, k);
            law_open_binders(*body, k + 1);
        },
        ExprTree::Let(_, ty, val, body, _) => {
            law_open_binders(*ty, k);
            law_open_binders(*val, k);
            law_open_binders(*body, k + 1);
        },
        ExprTree::MData(e) => {
            law_open_binders(*e, k);
        },
        ExprTree::Proj(_, _, e) => {
            law_open_binders(*e, k);
        },
        _ => {},
    }
}

/// A new node has a free variable exactly where one of its parts has, and is
/// open where one of its parts is, under its binder by one less.
pub proof fn law_node_flags(
    d: DagModel,
    n: NamePtr,
    s: BinderStyle,
    pi: bool,
    a: ExprPtr,
    b: ExprPtr,
    c: ExprPtr,
    i: u64,
)
    ensures
        app_node(d, a, b).fvars() <==> fvars(d, a) || fvars(d, b),
        binding_node(d, pi, n, s, a, b).fvars() <==> fvars(d, a) || fvars(d, b),
        let_node(d, n, a, b, c, pi).fvars() <==> fvars(d, a) || fvars(d, b) || fvars(d, c),
        proj_node(d, n, i, a).fvars() <==> fvars(d, a),
        forall|k: int| #[trigger]
            above(k, app_node(d, a, b).loose_bvars()) <==> above(k, loose(d, a)) && above(
                k,
                loose(d, b),
            ),
        forall|k: int|
            k >= 0 ==> (#[trigger] above(k, binding_node(d, pi, n, s, a, b).loose_bvars())
                <==> above(k, loose(d, a)) && above(k + 1, loose(d, b))),
        forall|k: int|
            k >= 0 ==> (#[trigger] above(k, let_node(d, n, a, b, c, pi).loose_bvars()) <==> above(
                k,
                loose(d, a),
            ) && above(k, loose(d, b)) && above(k + 1, loose(d, c))),
        proj_node(d, n, i, a).loose_bvars() == loose(d, a),
{
}

/// Whether `k` binders are enough where `n` are needed.
pub open spec fn above(k: int, n: u32) -> bool {
    k >= n
}

/// A node of the arena carries the number of binders that would close the
/// expression behind it, and that no free variable lies below.
pub proof fn law_loose_bvars(d: DagModel, p: ExprPtr, t: ExprTree)
    requires
        wf(d),
        expr_held(d, p, t),
    ensures
        loose(d, p) == open_binders(t),
        !fvars(d, p),
    decreases t,
{
    lemma_node(d, p);
    match (t, d.exprs[p.idx as int]) {
        (ExprTree::App(f, a), Expr::App { fun, arg, .. }) => {
            law_loose_bvars(d, fun, *f);
            law_loose_bvars(d, arg, *a);
        },
        (ExprTree::Lambda(_, _, ty, body), Expr::Lambda { binder_type, body: b, .. }) => {
            law_loose_bvars(d, binder_type, *ty);
            law_loose_bvars(d, b, *body);
        },
        (ExprTree::Pi(_, _, ty, body), Expr::Pi { binder_type, body: b, .. }) => {
            law_loose_bvars(d, binder_type, *ty);
            law_loose_bvars(d, b, *body);
        },
        (ExprTree::Let(_, ty, v, body, _), Expr::Let { binder_type, val, body: b, .. }) => {
            law_loose_bvars(d, binder_type, *ty);
            law_loose_bvars(d, val, *v);
            law_loose_bvars(d, b, *body);
        },
        (ExprTree::MData(e), _) => {
            law_loose_bvars(d, p, *e);
        },
        (ExprTree::Proj(_, _, e), Expr::Proj { structure, .. }) => {
            law_loose_bvars(d, structure, *e);
        },
        _ => {},
    }
}

// ---------------------------------------------------------------------------
// What can be imported
// ---------------------------------------------------------------------------

/// Whether the numbers in the name `t` are small.
pub open spec fn name_importable(t: NameTree) -> bool
    decreases t,
{
    match t {
        NameTree::Anon => true,
        NameTree::Str(pre, _) => name_importable(*pre),
        NameTree::Num(pre, n) => name_importable(*pre) && n is Small,
    }
}

/// Whether there is no metavariable in the level `t`, and its names can be
/// imported.
pub open spec fn level_importable(t: LevelTree) -> bool
    decreases t,
{
    match t {
        LevelTree::Zero => true,
        LevelTree::Succ(a) => level_importable(*a),
        LevelTree::Max(a, b) => level_importable(*a) && level_importable(*b),
        LevelTree::IMax(a, b) => level_importable(*a) && level_importable(*b),
        LevelTree::Param(n) => name_importable(n),
        LevelTree::MVar => false,
    }
}

/// Whether the expression `t` can be imported: it has no free variable and no
/// metavariable, its indices are small, those of bound variables fit in a
/// `u16`, its literals are of an enabled kind, big natural numbers have a place,
/// and its names and levels can be imported.
pub open spec fn expr_importable(t: ExprTree, nat_ext: bool, str_ext: bool, bignums: bool) -> bool
    decreases t,
{
    match t {
        ExprTree::BVar(n) => n matches NatTree::Small(v) && v <= 0xffff,
        ExprTree::FVar => false,
        ExprTree::MVar => false,
        ExprTree::Sort(l) => level_importable(l),
        ExprTree::Const(n, ls) => name_importable(n) && forall|i: int|
            0 <= i < ls.len() ==> level_importable(#[trigger] ls[i]),
        ExprTree::App(f, a) => expr_importable(*f, nat_ext, str_ext, bignums) && expr_importable(
            *a,
            nat_ext,
            str_ext,
            bignums,
        ),
        ExprTree::Lambda(n, _, ty, body) => {
            &&& name_importable(n)
            &&& expr_importable(*ty, nat_ext, str_ext, bignums)
            &&& expr_importable(*body, nat_ext, str_ext, bignums)
        },
        ExprTree::Pi(n, _, ty, body) => {
            &&& name_importable(n)
            &&& expr_importable(*ty, nat_ext, str_ext, bignums)
            &&& expr_importable(*body, nat_ext, str_ext, bignums)
        },
        ExprTree::Let(n, ty, val, body, _) => {
            &&& name_importable(n)
            &&& expr_importable(*ty, nat_ext, str_ext, bignums)
            &&& expr_importable(*val, nat_ext, str_ext, bignums)
            &&& expr_importable(*body, nat_ext, str_ext, bignums)
        },
        ExprTree::NatLit(_) => nat_ext && bignums,
        ExprTree::StrLit(_) => str_ext,
        ExprTree::MData(e) => expr_importable(*e, nat_ext, str_ext, bignums),
        ExprTree::Proj(n, i, e) => {
            &&& name_importable(n)
            &&& i is Small
            &&& expr_importable(*e, nat_ext, str_ext, bignums)
        },
    }
}

/// A name is imported exactly where its numbers are small.
pub proof fn law_name_import_succeeds(d: DagModel, t: NameTree)
    ensures
        add_name(d, t).1 is Ok <==> name_importable(t),
    decreases t,
{
    match t {
        NameTree::Anon => {},
        NameTree::Str(pre, _) => {
            law_name_import_succeeds(d, *pre);
        },
        NameTree::Num(pre, _) => {
            law_name_import_succeeds(d, *pre);
        },
    }
}

/// A level is imported exactly where it has no metavariable and its names can
/// be imported.
pub proof fn law_level_import_succeeds(d: DagModel, t: LevelTree)
    ensures
        add_level(d, t).1 is Ok <==> level_importable(t),
    decreases t,
{
    match t {
        LevelTree::Succ(a) => {
            law_level_import_succeeds(d, *a);
        },
        LevelTree::Max(a, b) => {
            law_level_import_succeeds(d, *a);
            law_level_import_succeeds(add_level(d, *a).0, *b);
        },
        LevelTree::IMax(a, b) => {
            law_level_import_succeeds(d, *a);
            law_level_import_succeeds(add_level(d, *a).0, *b);
        },
        LevelTree::Param(n) => {
            law_name_import_succeeds(d, n);
        },
        _ => {},
    }
}

pub proof fn lemma_level_seq_succeeds(d: DagModel, ls: Seq<LevelTree>)
    ensures
        add_level_seq(d, ls).1 is Ok <==> forall|i: int|
            0 <= i < ls.len() ==> level_importable(#[trigger] ls[i]),
    decreases ls.len(),
{
    if ls.len() > 0 {
        let front = ls.drop_last();
        lemma_level_seq_succeeds(d, front);
        law_level_import_succeeds(add_level_seq(d, front).0, ls.last());
        if add_level_seq(d, ls).1 is Ok {
            assert forall|i: int| 0 <= i < ls.len() implies level_importable(#[trigger] ls[i]) by {
                if i < front.len() {
                    assert(level_importable(front[i]));
                }
            }
        } else if forall|i: int| 0 <= i < ls.len() ==> level_importable(#[trigger] ls[i]) {
            assert(level_importable(ls[ls.len() - 1]));
            assert forall|i: int| 0 <= i < front.len() implies level_importable(
                #[trigger] front[i],
            ) by {
                assert(level_importable(ls[i]));
            }
        }
    }
}

/// A sequence of levels is imported exactly where each of the levels can be.
pub proof fn law_levels_import_succeeds(d: DagModel, ls: Seq<LevelTree>)
    ensures
        add_levels(d, ls).1 is Ok <==> forall|i: int|
            0 <= i < ls.len() ==> level_importable(#[trigger] ls[i]),
{
    lemma_level_seq_succeeds(d, ls);
}

pub proof fn lemma_keeps_bignums(d: DagModel, e: DagModel)
    requires
        extends(d, e),
    ensures
        d.bignums is Some <==> e.bignums is Some,
{
    reveal(extends);
}

/// An expression is imported exactly where it can be: what decides is the
/// expression, the settings, and whether the arena keeps big natural numbers.
pub proof fn law_expr_import_succeeds(d: DagModel, nat_ext: bool, str_ext: bool, t: ExprTree)
    ensures
        add_expr(d, nat_ext, str_ext, t).1 is Ok <==> expr_importable(
            t,
            nat_ext,
            str_ext,
            d.bignums is Some,
        ),
    decreases t,
{
    lemma_add_expr(d, nat_ext, str_ext, t);
    match t {
        ExprTree::Sort(l) => {
            law_level_import_succeeds(d, l);
        },
        ExprTree::Const(n, ls) => {
            law_name_import_succeeds(d, n);
            lemma_level_seq_succeeds(add_name(d, n).0, ls);
        },
        ExprTree::App(f, a) => {
            let d1 = add_expr(d, nat_ext, str_ext, *f).0;
            law_expr_import_succeeds(d, nat_ext, str_ext, *f);
            lemma_expr_grows(d, nat_ext, str_ext, *f);
            lemma_keeps_bignums(d, d1);
            law_expr_import_succeeds(d1, nat_ext, str_ext, *a);
        },
        ExprTree::Lambda(n, _, ty, body) => {
            lemma_binder_succeeds(d, nat_ext, str_ext, n, *ty);
            let d1 = add_name(d, n).0;
            let d2 = add_expr(d1, nat_ext, str_ext, *ty).0;
            law_expr_import_succeeds(d1, nat_ext, str_ext, *ty);
            law_expr_import_succeeds(d2, nat_ext, str_ext, *body);
        },
        ExprTree::Pi(n, _, ty, body) => {
            lemma_binder_succeeds(d, nat_ext, str_ext, n, *ty);
            let d1 = add_name(d, n).0;
            let d2 = add_expr(d1, nat_ext, str_ext, *ty).0;
            law_expr_import_succeeds(d1, nat_ext, str_ext, *ty);
            law_expr_import_succeeds(d2, nat_ext, str_ext, *body);
        },
        ExprTree::Let(n, ty, val, body, _) => {
            lemma_binder_succeeds(d, nat_ext, str_ext, n, *ty);
            let d1 = add_name(d, n).0;
            let d2 = add_expr(d1, nat_ext, str_ext, *ty).0;
            let d3 = add_expr(d2, nat_ext, str_ext, *val).0;
            law_expr_import_succeeds(d1, nat_ext, str_ext, *ty);
            law_expr_import_succeeds(d2, nat_ext, str_ext, *val);
            lemma_expr_grows(d2, nat_ext, str_ext, *val);
            lemma_keeps_bignums(d2, d3);
            law_expr_import_succeeds(d3, nat_ext, str_ext, *body);
        },
        ExprTree::MData(e) => {
            law_expr_import_succeeds(d, nat_ext, str_ext, *e);
        },
        ExprTree::Proj(n, _, e) => {
            let d1 = add_name(d, n).0;
            law_name_import_succeeds(d, n);
            lemma_name_grows(d, n);
            lemma_keeps_bignums(d, d1);
            law_expr_import_succeeds(d1, nat_ext, str_ext, *e);
        },
        _ => {},
    }
}

proof fn lemma_binder_succeeds(
    d: DagModel,
    nat_ext: bool,
    str_ext: bool,
    n: NameTree,
    ty: ExprTree,
)
    ensures
        ({
            let d1 = add_name(d, n).0;
            let d2 = add_expr(d1, nat_ext, str_ext, ty).0;
            &&& add_name(d, n).1 is Ok <==> name_importable(n)
            &&& d.bignums is Some <==> d1.bignums is Some
            &&& d.bignums is Some <==> d2.bignums is Some
        }),
{
    let d1 = add_name(d, n).0;
    law_name_import_succeeds(d, n);
    lemma_name_grows(d, n);
    lemma_keeps_bignums(d, d1);
    lemma_expr_grows(d1, nat_ext, str_ext, ty);
    lemma_keeps_bignums(d1, add_expr(d1, nat_ext, str_ext, ty).0);
}

// ---------------------------------------------------------------------------
// What is held is not imported again
// ---------------------------------------------------------------------------

proof fn lemma_found<A>(s: Seq<A>, i: int)
    requires
        s.no_duplicates(),
        0 <= i < s.len(),
    ensures
        interned(s, s[i]) == s,
        interned_at(s, s[i]) == i,
{
    lemma_index_of(s, i);
}

proof fn lemma_held_name(d: DagModel, p: NamePtr, t: NameTree)
    requires
        wf(d),
        name_held(d, p, t),
    ensures
        add_name(d, t) == (d, Ok::<NamePtr, Seq<char>>(p)),
    decreases t,
{
    match (t, d.names[p.idx as int]) {
        (NameTree::Str(pre, _), Name::Str(q, r)) => {
            lemma_held_name(d, q, *pre);
        },
        (NameTree::Num(pre, _), Name::Num(q, _)) => {
            lemma_held_name(d, q, *pre);
        },
        _ => {},
    }
    reveal(wf);
    lemma_found(d.names, p.idx as int);
    if let Name::Str(_, r) = d.names[p.idx as int] {
        if t is Str {
            lemma_found(d.strings, r.idx as int);
        }
    }
}

proof fn lemma_held_level(d: DagModel, p: LevelPtr, t: LevelTree)
    requires
        wf(d),
        level_held(d, p, t),
    ensures
        add_level(d, t) == (d, Ok::<LevelPtr, Seq<char>>(p)),
    decreases t,
{
    match (t, d.levels[p.idx as int]) {
        (LevelTree::Succ(a), Level::Succ(q)) => {
            lemma_held_level(d, q, *a);
        },
        (LevelTree::Max(a, b), Level::Max(q, r)) => {
            lemma_held_level(d, q, *a);
            lemma_held_level(d, r, *b);
        },
        (LevelTree::IMax(a, b), Level::IMax(q, r)) => {
            lemma_held_level(d, q, *a);
            lemma_held_level(d, r, *b);
        },
        (LevelTree::Param(n), Level::Param(q)) => {
            lemma_held_name(d, q, n);
        },
        _ => {},
    }
    reveal(wf);
    lemma_found(d.levels, p.idx as int);
}

proof fn lemma_held_level_seq(d: DagModel, ps: Seq<LevelPtr>, ls: Seq<LevelTree>)
    requires
        wf(d),
        level_seq_held(d, ps, ls),
    ensures
        add_level_seq(d, ls) == (d, Ok::<Seq<LevelPtr>, Seq<char>>(ps)),
    decreases ls.len(),
{
    if ls.len() == 0 {
        assert(ps =~= seq![]);
    } else {
        let front = ls.drop_last();
        assert forall|i: int| 0 <= i < front.len() implies level_held(
            d,
            #[trigger] ps.drop_last()[i],
            front[i],
        ) by {
            assert(level_held(d, ps[i], ls[i]));
        }
        lemma_held_level_seq(d, ps.drop_last(), front);
        assert(level_held(d, ps[ls.len() - 1], ls[ls.len() - 1]));
        lemma_held_level(d, ps.last(), ls.last());
        assert(ps.drop_last().push(ps.last()) =~= ps);
    }
}

proof fn lemma_held_levels(d: DagModel, p: LevelsPtr, ls: Seq<LevelTree>)
    requires
        wf(d),
        levels_held(d, p, ls),
    ensures
        add_levels(d, ls) == (d, Ok::<LevelsPtr, Seq<char>>(p)),
{
    lemma_held_level_seq(d, d.uparams[p.idx as int], ls);
    reveal(wf);
    lemma_found(d.uparams, p.idx as int);
}

proof fn lemma_held_node(d: DagModel, p: ExprPtr)
    requires
        wf(d),
        valid_expr(d, p),
    ensures
        put_expr(d, d.exprs[p.idx as int]) == (d, p),
{
    reveal(wf);
    lemma_found(d.exprs, p.idx as int);
}

proof fn lemma_held_bignum(d: DagModel, p: BigUintPtr, v: nat)
    requires
        wf(d),
        valid_biguint(d, p),
        limbs_value(d.bignums->0[p.idx as int]) == v,
    ensures
        put_bignum(d, limbs_of(v)) == (d, Ok::<BigUintPtr, Seq<char>>(p)),
{
    reveal(wf);
    lemma_found(d.bignums->0, p.idx as int);
}

proof fn lemma_held_string(d: DagModel, p: StringPtr)
    requires
        wf(d),
        valid_string(d, p),
    ensures
        put_string(d, d.strings[p.idx as int]) == (d, p),
{
    reveal(wf);
    lemma_found(d.strings, p.idx as int);
}

/// Where an arena holds an expression that can be imported, importing it adds
/// nothing and gives the pointer that it is held behind.
#[verifier::spinoff_prover]
#[verifier::rlimit(30)]
pub proof fn law_held_is_imported(
    d: DagModel,
    nat_ext: bool,
    str_ext: bool,
    p: ExprPtr,
    t: ExprTree,
)
    requires
        wf(d),
        expr_held(d, p, t),
        expr_importable(t, nat_ext, str_ext, d.bignums is Some),
    ensures
        add_expr(d, nat_ext, str_ext, t) == (d, Ok::<ExprPtr, Seq<char>>(p)),
    decreases t,
{
    lemma_add_expr(d, nat_ext, str_ext, t);
    lemma_node(d, p);
    lemma_held_node(d, p);
    match (t, d.exprs[p.idx as int]) {
        (ExprTree::Sort(l), Expr::Sort { level }) => {
            lemma_held_level(d, level, l);
        },
        (ExprTree::Const(n, ls), Expr::Const { name, levels }) => {
            lemma_held_name(d, name, n);
            lemma_held_levels(d, levels, ls);
        },
        (ExprTree::App(f, a), Expr::App { fun, arg, .. }) => {
            law_held_is_imported(d, nat_ext, str_ext, fun, *f);
            law_held_is_imported(d, nat_ext, str_ext, arg, *a);
        },
        (
            ExprTree::Lambda(n, _, ty, body),
            Expr::Lambda { binder_name, binder_type, body: b, .. },
        ) => {
            lemma_held_name(d, binder_name, n);
            law_held_is_imported(d, nat_ext, str_ext, binder_type, *ty);
            law_held_is_imported(d, nat_ext, str_ext, b, *body);
        },
        (ExprTree::Pi(n, _, ty, body), Expr::Pi { binder_name, binder_type, body: b, .. }) => {
            lemma_held_name(d, binder_name, n);
            law_held_is_imported(d, nat_ext, str_ext, binder_type, *ty);
            law_held_is_imported(d, nat_ext, str_ext, b, *body);
        },
        (
            ExprTree::Let(n, ty, v, body, _),
            Expr::Let { binder_name, binder_type, val, body: b, .. },
        ) => {
            lemma_held_name(d, binder_name, n);
            law_held_is_imported(d, nat_ext, str_ext, binder_type, *ty);
            law_held_is_imported(d, nat_ext, str_ext, val, *v);
            law_held_is_imported(d, nat_ext, str_ext, b, *body);
        },
        (ExprTree::NatLit(n), Expr::NatLit { ptr }) => {
            lemma_held_bignum(d, ptr, n.value());
        },
        (ExprTree::StrLit(s), Expr::StringLit { ptr }) => {
            lemma_held_string(d, ptr);
        },
        (ExprTree::MData(e), _) => {
            law_held_is_imported(d, nat_ext, str_ext, p, *e);
        },
        (ExprTree::Proj(n, _, s), Expr::Proj { ty_name, structure, .. }) => {
            lemma_held_name(d, ty_name, n);
            law_held_is_imported(d, nat_ext, str_ext, structure, *s);
        },
        _ => {},
    }
}

// ---------------------------------------------------------------------------
// Which error an import stops on
// ---------------------------------------------------------------------------

/// The first of two faults.
pub open spec fn first_fault(
    a: Option<Seq<char>>,
    b: Option<Seq<char>>,
) -> Option<Seq<char>> {
    if a is Some {
        a
    } else {
        b
    }
}

/// What is wrong with the name `t`, from its root on.
pub open spec fn name_fault(t: NameTree) -> Option<Seq<char>>
    decreases t,
{
    match t {
        NameTree::Anon => None,
        NameTree::Str(pre, _) => name_fault(*pre),
        NameTree::Num(pre, n) => first_fault(
            name_fault(*pre),
            if n is Small {
                None
            } else {
                Some("bignum name component"@)
            },
        ),
    }
}

/// What is wrong with the level `t`, from left to right.
pub open spec fn level_fault(t: LevelTree) -> Option<Seq<char>>
    decreases t,
{
    match t {
        LevelTree::Zero => None,
        LevelTree::Succ(a) => level_fault(*a),
        LevelTree::Max(a, b) => first_fault(level_fault(*a), level_fault(*b)),
        LevelTree::IMax(a, b) => first_fault(level_fault(*a), level_fault(*b)),
        LevelTree::Param(n) => name_fault(n),
        LevelTree::MVar => Some("universe metavariable in declaration"@),
    }
}

/// What is wrong with the levels `ls`, from the first on.
pub open spec fn levels_fault(ls: Seq<LevelTree>) -> Option<Seq<char>>
    decreases ls.len(),
{
    if ls.len() == 0 {
        None
    } else {
        first_fault(levels_fault(ls.drop_last()), level_fault(ls.last()))
    }
}

/// What is wrong with the expression `t`, in the order of its fields.
pub open spec fn expr_fault(
    t: ExprTree,
    nat_ext: bool,
    str_ext: bool,
    bignums: bool,
) -> Option<Seq<char>>
    decreases t,
{
    match t {
        ExprTree::BVar(n) => match n {
            NatTree::Big(_) => Some("bignum bvar index"@),
            NatTree::Small(v) => if v <= 65535 {
                None
            } else {
                Some("bvar index exceeds u16"@)
            },
        },
        ExprTree::FVar => Some("free/meta variable in closed declaration"@),
        ExprTree::MVar => Some("free/meta variable in closed declaration"@),
        ExprTree::Sort(l) => level_fault(l),
        ExprTree::Const(n, ls) => first_fault(name_fault(n), levels_fault(ls)),
        ExprTree::App(f, a) => first_fault(
            expr_fault(*f, nat_ext, str_ext, bignums),
            expr_fault(*a, nat_ext, str_ext, bignums),
        ),
        ExprTree::Lambda(n, _, ty, body) => first_fault(
            name_fault(n),
            first_fault(
                expr_fault(*ty, nat_ext, str_ext, bignums),
                expr_fault(*body, nat_ext, str_ext, bignums),
            ),
        ),
        ExprTree::Pi(n, _, ty, body) => first_fault(
            name_fault(n),
            first_fault(
                expr_fault(*ty, nat_ext, str_ext, bignums),
                expr_fault(*body, nat_ext, str_ext, bignums),
            ),
        ),
        ExprTree::Let(n, ty, val, body, _) => first_fault(
            name_fault(n),
            first_fault(
                expr_fault(*ty, nat_ext, str_ext, bignums),
                first_fault(
                    expr_fault(*val, nat_ext, str_ext, bignums),
                    expr_fault(*body, nat_ext, str_ext, bignums),
                ),
            ),
        ),
        ExprTree::NatLit(_) => if !nat_ext {
            Some("Nat literal but nat_extension disabled"@)
        } else if !bignums {
            Some("bignum store disabled"@)
        } else {
            None
        },
        ExprTree::StrLit(_) => if str_ext {
            None
        } else {
            Some("String literal but string_extension disabled"@)
        },
        ExprTree::MData(e) => expr_fault(*e, nat_ext, str_ext, bignums),
        ExprTree::Proj(n, i, e) => first_fault(
            name_fault(n),
            first_fault(
                if i is Small {
                    None
                } else {
                    Some("bignum proj index"@)
                },
                expr_fault(*e, nat_ext, str_ext, bignums),
            ),
        ),
    }
}

/// Whether an import ends as the fault `f` says: with its message, or well
/// where there is none.
pub open spec fn ends_as<T>(r: Result<T, Seq<char>>, f: Option<Seq<char>>) -> bool {
    match r {
        Ok(_) => f is None,
        Err(msg) => f == Some(msg),
    }
}

/// The import of a name stops on the first fault in it.
pub proof fn law_name_error(d: DagModel, t: NameTree)
    ensures
        ends_as(add_name(d, t).1, name_fault(t)),
    decreases t,
{
    match t {
        NameTree::Anon => {},
        NameTree::Str(pre, _) => {
            law_name_error(d, *pre);
        },
        NameTree::Num(pre, _) => {
            law_name_error(d, *pre);
        },
    }
}

/// The import of a level stops on the first fault in it.
pub proof fn law_level_error(d: DagModel, t: LevelTree)
    ensures
        ends_as(add_level(d, t).1, level_fault(t)),
    decreases t,
{
    match t {
        LevelTree::Succ(a) => {
            law_level_error(d, *a);
        },
        LevelTree::Max(a, b) => {
            law_level_error(d, *a);
            law_level_error(add_level(d, *a).0, *b);
        },
        LevelTree::IMax(a, b) => {
            law_level_error(d, *a);
            law_level_error(add_level(d, *a).0, *b);
        },
        LevelTree::Param(n) => {
            law_name_error(d, n);
        },
        _ => {},
    }
}

proof fn lemma_level_seq_error(d: DagModel, ls: Seq<LevelTree>)
    ensures
        ends_as(add_level_seq(d, ls).1, levels_fault(ls)),
    decreases ls.len(),
{
    if ls.len() > 0 {
        lemma_level_seq_error(d, ls.drop_last());
        law_level_error(add_level_seq(d, ls.drop_last()).0, ls.last());
    }
}

/// The import of a sequence of levels stops on the first fault in it.
pub proof fn law_levels_error(d: DagModel, ls: Seq<LevelTree>)
    ensures
        ends_as(add_levels(d, ls).1, levels_fault(ls)),
{
    lemma_level_seq_error(d, ls);
}

/// The import of an expression stops on the first fault in it.
pub proof fn law_expr_error(d: DagModel, nat_ext: bool, str_ext: bool, t: ExprTree)
    ensures
        ends_as(
            add_expr(d, nat_ext, str_ext, t).1,
            expr_fault(t, nat_ext, str_ext, d.bignums is Some),
        ),
    decreases t,
{
    lemma_add_expr(d, nat_ext, str_ext, t);
    match t {
        ExprTree::Sort(l) => {
            law_level_error(d, l);
        },
        ExprTree::Const(n, ls) => {
            law_name_error(d, n);
            law_levels_error(add_name(d, n).0, ls);
        },
        ExprTree::App(f, a) => {
            let d1 = add_expr(d, nat_ext, str_ext, *f).0;
            law_expr_error(d, nat_ext, str_ext, *f);
            lemma_expr_grows(d, nat_ext, str_ext, *f);
            lemma_keeps_bignums(d, d1);
            law_expr_error(d1, nat_ext, str_ext, *a);
        },
        ExprTree::Lambda(n, _, ty, body) => {
            lemma_binder_succeeds(d, nat_ext, str_ext, n, *ty);
            let d1 = add_name(d, n).0;
            law_name_error(d, n);
            law_expr_error(d1, nat_ext, str_ext, *ty);
            law_expr_error(add_expr(d1, nat_ext, str_ext, *ty).0, nat_ext, str_ext, *body);
        },
        ExprTree::Pi(n, _, ty, body) => {
            lemma_binder_succeeds(d, nat_ext, str_ext, n, *ty);
            let d1 = add_name(d, n).0;
            law_name_error(d, n);
            law_expr_error(d1, nat_ext, str_ext, *ty);
            law_expr_error(add_expr(d1, nat_ext, str_ext, *ty).0, nat_ext, str_ext, *body);
        },
        ExprTree::Let(n, ty, val, body, _) => {
            lemma_binder_succeeds(d, nat_ext, str_ext, n, *ty);
            let d1 = add_name(d, n).0;
            let d2 = add_expr(d1, nat_ext, str_ext, *ty).0;
            let d3 = add_expr(d2, nat_ext, str_ext, *val).0;
            law_name_error(d, n);
            law_expr_error(d1, nat_ext, str_ext, *ty);
            law_expr_error(d2, nat_ext, str_ext, *val);
            lemma_expr_grows(d2, nat_ext, str_ext, *val);
            lemma_keeps_bignums(d2, d3);
            law_expr_error(d3, nat_ext, str_ext, *body);
        },
        ExprTree::MData(e) => {
            law_expr_error(d, nat_ext, str_ext, *e);
        },
        ExprTree::Proj(n, _, e) => {
            let d1 = add_name(d, n).0;
            law_name_error(d, n);
            lemma_name_grows(d, n);
            lemma_keeps_bignums(d, d1);
            law_expr_error(d1, nat_ext, str_ext, *e);
        },
        _ => {},
    }
}

// ---------------------------------------------------------------------------
// An import adds the parts of its term and nothing else
// ---------------------------------------------------------------------------

/// Whether `u` is the expression `t` or a part of it.
pub open spec fn part_of(u: ExprTree, t: ExprTree) -> bool
    decreases t,
{
    u == t || match t {
        ExprTree::App(f, a) => part_of(u, *f) || part_of(u, *a),
        ExprTree::Lambda(_, _, ty, body) => part_of(u, *ty) || part_of(u, *body),
        ExprTree::Pi(_, _, ty, body) => part_of(u, *ty) || part_of(u, *body),
        ExprTree::Let(_, ty, val, body, _) => part_of(u, *ty) || part_of(u, *val) || part_of(
            u,
            *body,
        ),
        ExprTree::MData(e) => part_of(u, *e),
        ExprTree::Proj(_, _, e) => part_of(u, *e),
        _ => false,
    }
}

/// Whether the expression `i` of `d` is a part of `t`.
pub open spec fn holds_part(d: DagModel, i: int, t: ExprTree) -> bool {
    exists|u: ExprTree| #[trigger] part_of(u, t) && expr_held(d, expr_ptr(i), u)
}

/// Whether each expression that `e` has and `d` has not is a part of `t`.
pub open spec fn adds_parts(d: DagModel, e: DagModel, t: ExprTree) -> bool {
    forall|i: int|
        d.exprs.len() <= i < e.exprs.len() ==> holds_part(e, #[trigger] expr_idx(i), t)
}

/// The index `i`.
pub open spec fn expr_idx(i: int) -> int {
    i
}

proof fn lemma_name_no_exprs(d: DagModel, t: NameTree)
    ensures
        add_name(d, t).0.exprs == d.exprs,
    decreases t,
{
    match t {
        NameTree::Anon => {},
        NameTree::Str(pre, _) => {
            lemma_name_no_exprs(d, *pre);
        },
        NameTree::Num(pre, _) => {
            lemma_name_no_exprs(d, *pre);
        },
    }
}

proof fn lemma_level_no_exprs(d: DagModel, t: LevelTree)
    ensures
        add_level(d, t).0.exprs == d.exprs,
    decreases t,
{
    match t {
        LevelTree::Succ(a) => {
            lemma_level_no_exprs(d, *a);
        },
        LevelTree::Max(a, b) => {
            lemma_level_no_exprs(d, *a);
            lemma_level_no_exprs(add_level(d, *a).0, *b);
        },
        LevelTree::IMax(a, b) => {
            lemma_level_no_exprs(d, *a);
            lemma_level_no_exprs(add_level(d, *a).0, *b);
        },
        LevelTree::Param(n) => {
            lemma_name_no_exprs(d, n);
        },
        _ => {},
    }
}

proof fn lemma_levels_no_exprs(d: DagModel, ls: Seq<LevelTree>)
    ensures
        add_level_seq(d, ls).0.exprs == d.exprs,
        add_levels(d, ls).0.exprs == d.exprs,
    decreases ls.len(),
{
    if ls.len() > 0 {
        lemma_levels_no_exprs(d, ls.drop_last());
        lemma_level_no_exprs(add_level_seq(d, ls.drop_last()).0, ls.last());
    }
}

/// Parts of a part, in an arena that has grown since.
proof fn lemma_parts_stay(d: DagModel, d1: DagModel, e: DagModel, u: ExprTree, t: ExprTree)
    requires
        adds_parts(d, d1, u),
        extends(d1, e),
        forall|w: ExprTree| part_of(w, u) ==> #[trigger] part_of(w, t),
    ensures
        forall|i: int|
            d.exprs.len() <= i < d1.exprs.len() ==> holds_part(e, #[trigger] expr_idx(i), t),
{
    assert forall|i: int| d.exprs.len() <= i < d1.exprs.len() implies holds_part(
        e,
        #[trigger] expr_idx(i),
        t,
    ) by {
        assert(holds_part(d1, expr_idx(i), u));
        let w = choose|w: ExprTree| #[trigger] part_of(w, u) && expr_held(d1, expr_ptr(i), w);
        law_expr_stays(d1, e, expr_ptr(i), w);
        assert(part_of(w, t));
    }
}

/// The node of the whole, where it is new.
proof fn lemma_whole(d: DagModel, x: Expr, t: ExprTree)
    requires
        expr_held(put_expr(d, x).0, put_expr(d, x).1, t),
        fits(put_expr(d, x).0),
    ensures
        forall|i: int|
            d.exprs.len() <= i < put_expr(d, x).0.exprs.len() ==> holds_part(
                put_expr(d, x).0,
                #[trigger] expr_idx(i),
                t,
            ),
{
    lemma_interned_at(d.exprs, x);
    assert(part_of(t, t));
    if !d.exprs.contains(x) {
        let k = interned_at(d.exprs, x);
        if k < d.exprs.len() {
            assert(d.exprs[k] == x);
        }
    }
}

/// An import adds the parts of its expression and nothing else: each expression
/// that is new in the arena is the whole or a part of it, whether the import
/// succeeds or stops.
#[verifier::spinoff_prover]
#[verifier::rlimit(60)]
pub proof fn law_adds_parts(d: DagModel, nat_ext: bool, str_ext: bool, t: ExprTree)
    requires
        based(d),
        fits(add_expr(d, nat_ext, str_ext, t).0),
    ensures
        adds_parts(d, add_expr(d, nat_ext, str_ext, t).0, t),
    decreases t,
{
    let e = add_expr(d, nat_ext, str_ext, t).0;
    lemma_add_expr(d, nat_ext, str_ext, t);
    match t {
        ExprTree::BVar(n) => {
            if let NatTree::Small(v) = n {
                if v <= 0xffff {
                    lemma_expr_reads_back(d, nat_ext, str_ext, t);
                    lemma_whole(d, Expr::Var { dbj_idx: v as u16 }, t);
                }
            }
        },
        ExprTree::Sort(l) => {
            let (d1, r1) = add_level(d, l);
            lemma_level_no_exprs(d, l);
            if let Ok(level) = r1 {
                lemma_expr_reads_back(d, nat_ext, str_ext, t);
                lemma_whole(d1, Expr::Sort { level }, t);
            }
        },
        ExprTree::Const(n, ls) => {
            let (d1, r1) = add_name(d, n);
            lemma_name_no_exprs(d, n);
            if let Ok(name) = r1 {
                let (d2, r2) = add_levels(d1, ls);
                lemma_levels_no_exprs(d1, ls);
                if let Ok(levels) = r2 {
                    lemma_expr_reads_back(d, nat_ext, str_ext, t);
                    lemma_whole(d2, Expr::Const { name, levels }, t);
                }
            }
        },
        ExprTree::App(f, a) => {
            let (d1, r1) = add_expr(d, nat_ext, str_ext, *f);
            lemma_expr_grows(d, nat_ext, str_ext, *f);
            lemma_based_extends(d, d1);
            if r1 is Ok {
                let (d2, r2) = add_expr(d1, nat_ext, str_ext, *a);
                lemma_expr_grows(d1, nat_ext, str_ext, *a);
                lemma_based_extends(d1, d2);
                if r2 is Ok {
                    let x = app_node(d2, r1->Ok_0, r2->Ok_0);
                    lemma_put_expr_grows(d2, x);
                    lemma_extends_trans(d1, d2, e);
                    lemma_fits_down(d1, e);
                    law_adds_parts(d, nat_ext, str_ext, *f);
                    lemma_parts_stay(d, d1, e, *f, t);
                    lemma_fits_down(d2, e);
                    law_adds_parts(d1, nat_ext, str_ext, *a);
                    lemma_parts_stay(d1, d2, e, *a, t);
                    lemma_expr_reads_back(d, nat_ext, str_ext, t);
                    lemma_whole(d2, x, t);
                } else {
                    lemma_extends_refl(e);
                    lemma_extends_trans(d1, d2, e);
                    lemma_fits_down(d1, e);
                    law_adds_parts(d, nat_ext, str_ext, *f);
                    lemma_parts_stay(d, d1, e, *f, t);
                    lemma_fits_down(d2, e);
                    law_adds_parts(d1, nat_ext, str_ext, *a);
                    lemma_parts_stay(d1, d2, e, *a, t);
                }
            } else {
                lemma_extends_refl(e);
                lemma_fits_down(d1, e);
                law_adds_parts(d, nat_ext, str_ext, *f);
                lemma_parts_stay(d, d1, e, *f, t);
            }
        },
        ExprTree::Lambda(n, bi, ty, body) => {
            let (d1, r1) = add_name(d, n);
            lemma_name_no_exprs(d, n);
            lemma_name_grows(d, n);
            lemma_based_extends(d, d1);
            if r1 is Ok {
                let (d2, r2) = add_expr(d1, nat_ext, str_ext, *ty);
                lemma_expr_grows(d1, nat_ext, str_ext, *ty);
                lemma_based_extends(d1, d2);
                if r2 is Ok {
                    let (d3, r3) = add_expr(d2, nat_ext, str_ext, *body);
                    lemma_expr_grows(d2, nat_ext, str_ext, *body);
                    lemma_based_extends(d2, d3);
                    if r3 is Ok {
                        let x = binding_node(d3, false, r1->Ok_0, style_of(bi), r2->Ok_0, r3->Ok_0);
                        lemma_put_expr_grows(d3, x);
                        lemma_extends_trans(d2, d3, e);
                        lemma_extends_trans(d1, d2, e);
                        lemma_fits_down(d2, e);
                        law_adds_parts(d1, nat_ext, str_ext, *ty);
                        lemma_parts_stay(d1, d2, e, *ty, t);
                        lemma_fits_down(d3, e);
                        law_adds_parts(d2, nat_ext, str_ext, *body);
                        lemma_parts_stay(d2, d3, e, *body, t);
                        lemma_expr_reads_back(d, nat_ext, str_ext, t);
                        lemma_whole(d3, x, t);
                    } else {
                        lemma_extends_refl(e);
                        lemma_extends_trans(d2, d3, e);
                        lemma_extends_trans(d1, d2, e);
                        lemma_fits_down(d2, e);
                        law_adds_parts(d1, nat_ext, str_ext, *ty);
                        lemma_parts_stay(d1, d2, e, *ty, t);
                        lemma_fits_down(d3, e);
                        law_adds_parts(d2, nat_ext, str_ext, *body);
                        lemma_parts_stay(d2, d3, e, *body, t);
                    }
                } else {
                    lemma_extends_refl(e);
                    lemma_extends_trans(d1, d2, e);
                    lemma_fits_down(d2, e);
                    law_adds_parts(d1, nat_ext, str_ext, *ty);
                    lemma_parts_stay(d1, d2, e, *ty, t);
                }
            } else {
                lemma_extends_refl(e);
            }
        },
        ExprTree::Pi(n, bi, ty, body) => {
            let (d1, r1) = add_name(d, n);
            lemma_name_no_exprs(d, n);
            lemma_name_grows(d, n);
            lemma_based_extends(d, d1);
            if r1 is Ok {
                let (d2, r2) = add_expr(d1, nat_ext, str_ext, *ty);
                lemma_expr_grows(d1, nat_ext, str_ext, *ty);
                lemma_based_extends(d1, d2);
                if r2 is Ok {
                    let (d3, r3) = add_expr(d2, nat_ext, str_ext, *body);
                    lemma_expr_grows(d2, nat_ext, str_ext, *body);
                    lemma_based_extends(d2, d3);
                    if r3 is Ok {
                        let x = binding_node(d3, true, r1->Ok_0, style_of(bi), r2->Ok_0, r3->Ok_0);
                        lemma_put_expr_grows(d3, x);
                        lemma_extends_trans(d2, d3, e);
                        lemma_extends_trans(d1, d2, e);
                        lemma_fits_down(d2, e);
                        law_adds_parts(d1, nat_ext, str_ext, *ty);
                        lemma_parts_stay(d1, d2, e, *ty, t);
                        lemma_fits_down(d3, e);
                        law_adds_parts(d2, nat_ext, str_ext, *body);
                        lemma_parts_stay(d2, d3, e, *body, t);
                        lemma_expr_reads_back(d, nat_ext, str_ext, t);
                        lemma_whole(d3, x, t);
                    } else {
                        lemma_extends_refl(e);
                        lemma_extends_trans(d2, d3, e);
                        lemma_extends_trans(d1, d2, e);
                        lemma_fits_down(d2, e);
                        law_adds_parts(d1, nat_ext, str_ext, *ty);
                        lemma_parts_stay(d1, d2, e, *ty, t);
                        lemma_fits_down(d3, e);
                        law_adds_parts(d2, nat_ext, str_ext, *body);
                        lemma_parts_stay(d2, d3, e, *body, t);
                    }
                } else {
                    lemma_extends_refl(e);
                    lemma_extends_trans(d1, d2, e);
                    lemma_fits_down(d2, e);
                    law_adds_parts(d1, nat_ext, str_ext, *ty);
                    lemma_parts_stay(d1, d2, e, *ty, t);
                }
            } else {
                lemma_extends_refl(e);
            }
        },
        ExprTree::Let(n, ty, val, body, nondep) => {
            let (d1, r1) = add_name(d, n);
            lemma_name_no_exprs(d, n);
            lemma_name_grows(d, n);
            lemma_based_extends(d, d1);
            if r1 is Ok {
                let (d2, r2) = add_expr(d1, nat_ext, str_ext, *ty);
                lemma_expr_grows(d1, nat_ext, str_ext, *ty);
                lemma_based_extends(d1, d2);
                if r2 is Ok {
                    let (d3, r3) = add_expr(d2, nat_ext, str_ext, *val);
                    lemma_expr_grows(d2, nat_ext, str_ext, *val);
                    lemma_based_extends(d2, d3);
                    if r3 is Ok {
                        let (d4, r4) = add_expr(d3, nat_ext, str_ext, *body);
                        lemma_expr_grows(d3, nat_ext, str_ext, *body);
                        lemma_based_extends(d3, d4);
                        if r4 is Ok {
                            let x = let_node(d4, r1->Ok_0, r2->Ok_0, r3->Ok_0, r4->Ok_0, nondep);
                            lemma_put_expr_grows(d4, x);
                            lemma_extends_trans(d3, d4, e);
                            lemma_extends_trans(d2, d3, e);
                            lemma_extends_trans(d1, d2, e);
                            lemma_fits_down(d2, e);
                            law_adds_parts(d1, nat_ext, str_ext, *ty);
                            lemma_parts_stay(d1, d2, e, *ty, t);
                            lemma_fits_down(d3, e);
                            law_adds_parts(d2, nat_ext, str_ext, *val);
                            lemma_parts_stay(d2, d3, e, *val, t);
                            lemma_fits_down(d4, e);
                            law_adds_parts(d3, nat_ext, str_ext, *body);
                            lemma_parts_stay(d3, d4, e, *body, t);
                            lemma_expr_reads_back(d, nat_ext, str_ext, t);
                            lemma_whole(d4, x, t);
                        } else {
                            lemma_extends_refl(e);
                            lemma_extends_trans(d3, d4, e);
                            lemma_extends_trans(d2, d3, e);
                            lemma_extends_trans(d1, d2, e);
                            lemma_fits_down(d2, e);
                            law_adds_parts(d1, nat_ext, str_ext, *ty);
                            lemma_parts_stay(d1, d2, e, *ty, t);
                            lemma_fits_down(d3, e);
                            law_adds_parts(d2, nat_ext, str_ext, *val);
                            lemma_parts_stay(d2, d3, e, *val, t);
                            lemma_fits_down(d4, e);
                            law_adds_parts(d3, nat_ext, str_ext, *body);
                            lemma_parts_stay(d3, d4, e, *body, t);
                        }
                    } else {
                        lemma_extends_refl(e);
                        lemma_extends_trans(d2, d3, e);
                        lemma_extends_trans(d1, d2, e);
                        lemma_fits_down(d2, e);
                        law_adds_parts(d1, nat_ext, str_ext, *ty);
                        lemma_parts_stay(d1, d2, e, *ty, t);
                        lemma_fits_down(d3, e);
                        law_adds_parts(d2, nat_ext, str_ext, *val);
                        lemma_parts_stay(d2, d3, e, *val, t);
                    }
                } else {
                    lemma_extends_refl(e);
                    lemma_extends_trans(d1, d2, e);
                    lemma_fits_down(d2, e);
                    law_adds_parts(d1, nat_ext, str_ext, *ty);
                    lemma_parts_stay(d1, d2, e, *ty, t);
                }
            } else {
                lemma_extends_refl(e);
            }
        },
        ExprTree::NatLit(n) => {
            if nat_ext {
                let (d1, r1) = put_bignum(d, limbs_of(n.value()));
                if let Ok(ptr) = r1 {
                    lemma_expr_reads_back(d, nat_ext, str_ext, t);
                    lemma_whole(d1, Expr::NatLit { ptr }, t);
                }
            }
        },
        ExprTree::StrLit(s) => {
            if str_ext {
                let (d1, ptr) = put_string(d, s);
                lemma_expr_reads_back(d, nat_ext, str_ext, t);
                lemma_whole(d1, Expr::StringLit { ptr }, t);
            }
        },
        ExprTree::MData(inner) => {
            law_adds_parts(d, nat_ext, str_ext, *inner);
            lemma_extends_refl(e);
            lemma_parts_stay(d, e, e, *inner, t);
        },
        ExprTree::Proj(n, i, s) => {
            let (d1, r1) = add_name(d, n);
            lemma_name_no_exprs(d, n);
            lemma_name_grows(d, n);
            lemma_based_extends(d, d1);
            if r1 is Ok && i is Small {
                let (d2, r2) = add_expr(d1, nat_ext, str_ext, *s);
                lemma_extends_refl(d2);
                if r2 is Ok {
                    let x = proj_node(d2, r1->Ok_0, i->Small_0, r2->Ok_0);
                    lemma_put_expr_grows(d2, x);
                    lemma_fits_down(d2, e);
                    lemma_expr_reads_back(d, nat_ext, str_ext, t);
                    lemma_whole(d2, x, t);
                }
                law_adds_parts(d1, nat_ext, str_ext, *s);
                lemma_parts_stay(d1, d2, e, *s, t);
            }
        },
        ExprTree::FVar => {},
        ExprTree::MVar => {},
    }
}

/// Whether `u` is the name `t` or a prefix of it.
pub open spec fn prefix_of(u: NameTree, t: NameTree) -> bool
    decreases t,
{
    u == t || match t {
        NameTree::Anon => false,
        NameTree::Str(pre, _) => prefix_of(u, *pre),
        NameTree::Num(pre, _) => prefix_of(u, *pre),
    }
}

/// Whether the text `s` is a component of the name `t`.
pub open spec fn has_text(t: NameTree, s: Seq<char>) -> bool
    decreases t,
{
    match t {
        NameTree::Anon => false,
        NameTree::Str(pre, last) => last == s || has_text(*pre, s),
        NameTree::Num(pre, _) => has_text(*pre, s),
    }
}

/// Whether the name `i` of `d` is a prefix of `t`.
pub open spec fn holds_prefix(d: DagModel, i: int, t: NameTree) -> bool {
    exists|u: NameTree| #[trigger] prefix_of(u, t) && name_held(d, name_ptr(i), u)
}

/// An import adds the prefixes of its name and their components and nothing
/// else, whether it succeeds or stops.
pub proof fn law_name_adds_prefixes(d: DagModel, t: NameTree, i: int)
    requires
        based(d),
        fits(add_name(d, t).0),
    ensures
        ({
            let e = add_name(d, t).0;
            &&& d.names.len() <= i < e.names.len() ==> holds_prefix(e, i, t)
            &&& d.strings.len() <= i < e.strings.len() ==> has_text(t, e.strings[i])
            &&& e.levels == d.levels
            &&& e.exprs == d.exprs
            &&& e.uparams == d.uparams
            &&& e.bignums == d.bignums
        }),
    decreases t,
{
    let e = add_name(d, t).0;
    lemma_name_grows(d, t);
    if t !is Anon {
        let pre = if t is Str {
            *t->Str_0
        } else {
            *t->Num_0
        };
        let (d1, r1) = add_name(d, pre);
        lemma_name_grows(d, pre);
        lemma_based_extends(d, d1);
        if t is Str && r1 is Ok {
            let (d2, q) = put_string(d1, t->Str_1);
            lemma_put_string_grows(d1, t->Str_1);
            lemma_put_name_grows(d2, Name::Str(r1->Ok_0, q));
            lemma_extends_trans(d1, d2, e);
        } else if t is Num && r1 is Ok && t->Num_1 is Small {
            lemma_put_name_grows(d1, Name::Num(r1->Ok_0, t->Num_1->Small_0));
        } else {
            lemma_extends_refl(e);
        }
        assert(extends(d1, e));
        lemma_fits_down(d1, e);
        law_name_adds_prefixes(d, pre, i);
        lemma_tails(d1, e);
        if d.names.len() <= i < d1.names.len() {
            let u = choose|u: NameTree| #[trigger]
                prefix_of(u, pre) && name_held(d1, name_ptr(i), u);
            law_name_stays(d1, e, name_ptr(i), u);
            assert(prefix_of(u, t));
        } else if d1.names.len() <= i < e.names.len() {
            assert(add_name(d, t).1 is Ok);
            lemma_name_reads_back(d, t);
            let n = if t is Str {
                Name::Str(r1->Ok_0, put_string(d1, t->Str_1).1)
            } else {
                Name::Num(r1->Ok_0, t->Num_1->Small_0)
            };
            lemma_interned_at(d1.names, n);
            let k = interned_at(d1.names, n);
            if k < d1.names.len() {
                assert(d1.names[k] == n);
            }
            assert(name_ptr(i) == add_name(d, t).1->Ok_0);
            assert(prefix_of(t, t));
        }
    }
}

/// What an arena held it holds at the same place.
proof fn lemma_tails(d: DagModel, e: DagModel)
    requires
        extends(d, e),
    ensures
        d.names.len() <= e.names.len(),
        d.strings.len() <= e.strings.len(),
        d.levels.len() <= e.levels.len(),
        forall|i: int| 0 <= i < d.strings.len() ==> d.strings[i] == #[trigger] e.strings[i],
{
    reveal(extends);
}

/// Whether `u` is the level `t` or a part of it.
pub open spec fn level_part(u: LevelTree, t: LevelTree) -> bool
    decreases t,
{
    u == t || match t {
        LevelTree::Succ(a) => level_part(u, *a),
        LevelTree::Max(a, b) => level_part(u, *a) || level_part(u, *b),
        LevelTree::IMax(a, b) => level_part(u, *a) || level_part(u, *b),
        _ => false,
    }
}

/// Whether the level `i` of `d` is a part of `t`.
pub open spec fn holds_level_part(d: DagModel, i: int, t: LevelTree) -> bool {
    exists|u: LevelTree| #[trigger] level_part(u, t) && level_held(d, level_ptr(i), u)
}

proof fn lemma_level_part_stays(d: DagModel, e: DagModel, i: int, u: LevelTree, t: LevelTree)
    requires
        holds_level_part(d, i, u),
        extends(d, e),
        forall|w: LevelTree| level_part(w, u) ==> #[trigger] level_part(w, t),
    ensures
        holds_level_part(e, i, t),
{
    let w = choose|w: LevelTree| #[trigger] level_part(w, u) && level_held(d, level_ptr(i), w);
    law_level_stays(d, e, level_ptr(i), w);
    assert(level_part(w, t));
}

proof fn lemma_level_whole(d: DagModel, l: Level, t: LevelTree, i: int)
    requires
        level_held(put_level(d, l).0, put_level(d, l).1, t),
        d.levels.len() <= i < put_level(d, l).0.levels.len(),
    ensures
        holds_level_part(put_level(d, l).0, i, t),
{
    lemma_interned_at(d.levels, l);
    let k = interned_at(d.levels, l);
    if k < d.levels.len() {
        assert(d.levels[k] == l);
    }
    assert(level_part(t, t));
}

/// An import adds the parts of its level and nothing else: no other level, no
/// sequence, no expression and no number.
pub proof fn law_level_adds_parts(d: DagModel, t: LevelTree, i: int)
    requires
        based(d),
        fits(add_level(d, t).0),
    ensures
        ({
            let e = add_level(d, t).0;
            &&& d.levels.len() <= i < e.levels.len() ==> holds_level_part(e, i, t)
            &&& e.exprs == d.exprs
            &&& e.uparams == d.uparams
            &&& e.bignums == d.bignums
        }),
    decreases t, 1int,
{
    let (e, r) = add_level(d, t);
    match t {
        LevelTree::Succ(a) => {
            let (d1, r1) = add_level(d, *a);
            lemma_level_grows(d, *a);
            if let Ok(p) = r1 {
                lemma_put_level_grows(d1, Level::Succ(p));
                lemma_fits_down(d1, e);
                lemma_level_reads_back(d, t);
                if d1.levels.len() <= i < e.levels.len() {
                    lemma_level_whole(d1, Level::Succ(p), t, i);
                }
            } else {
                lemma_extends_refl(e);
            }
            law_level_adds_parts(d, *a, i);
            if d.levels.len() <= i < d1.levels.len() {
                lemma_level_part_stays(d1, e, i, *a, t);
            }
        },
        LevelTree::Max(a, b) => {
            lemma_two_levels(d, *a, *b, t, i);
        },
        LevelTree::IMax(a, b) => {
            lemma_two_levels(d, *a, *b, t, i);
        },
        LevelTree::Param(n) => {
            let (d1, r1) = add_name(d, n);
            lemma_name_grows(d, n);
            if let Ok(p) = r1 {
                lemma_put_level_grows(d1, Level::Param(p));
                lemma_fits_down(d1, e);
                lemma_level_reads_back(d, t);
                law_name_adds_prefixes(d, n, 0);
                if d1.levels.len() <= i < e.levels.len() {
                    lemma_level_whole(d1, Level::Param(p), t, i);
                }
            } else {
                law_name_adds_prefixes(d, n, 0);
            }
        },
        _ => {},
    }
}

proof fn lemma_two_levels(d: DagModel, a: LevelTree, b: LevelTree, t: LevelTree, i: int)
    requires
        based(d),
        fits(add_level(d, t).0),
        t == LevelTree::Max(Box::new(a), Box::new(b)) || t == LevelTree::IMax(
            Box::new(a),
            Box::new(b),
        ),
    ensures
        ({
            let e = add_level(d, t).0;
            &&& d.levels.len() <= i < e.levels.len() ==> holds_level_part(e, i, t)
            &&& e.exprs == d.exprs
            &&& e.uparams == d.uparams
            &&& e.bignums == d.bignums
        }),
    decreases t, 0int,
{
    let (e, r) = add_level(d, t);
    let (d1, r1) = add_level(d, a);
    let (d2, r2) = add_level(d1, b);
    lemma_level_grows(d, a);
    lemma_level_grows(d1, b);
    lemma_based_extends(d, d1);
    if r1 is Ok {
        if r2 is Ok {
            let l = if t is Max {
                Level::Max(r1->Ok_0, r2->Ok_0)
            } else {
                Level::IMax(r1->Ok_0, r2->Ok_0)
            };
            lemma_put_level_grows(d2, l);
            lemma_level_reads_back(d, t);
            if d2.levels.len() <= i < e.levels.len() {
                lemma_level_whole(d2, l, t, i);
            }
        } else {
            lemma_extends_refl(e);
        }
        lemma_fits_down(d2, e);
        lemma_fits_down(d1, d2);
        lemma_extends_trans(d1, d2, e);
        law_level_adds_parts(d1, b, i);
        if d1.levels.len() <= i < d2.levels.len() {
            lemma_level_part_stays(d2, e, i, b, t);
        }
    } else {
        lemma_extends_refl(e);
    }
    law_level_adds_parts(d, a, i);
    if d.levels.len() <= i < d1.levels.len() {
        lemma_level_part_stays(d1, e, i, a, t);
    }
}

} // verus!
