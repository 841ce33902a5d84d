//! Proofs about the arena: it only grows, it stays an arena, and a tree that
//! was imported once is imported for good.

use crate::big::{law_limbs_roundtrip, limbs_of};
use crate::expr::Expr;
use crate::level::Level;
use crate::model::{
    add_expr, add_level, add_level_seq, add_levels, add_name, add_names, app_node, begins_with,
    binding_node, expr_ok, extends, fits, lemma_add_expr, level_ok, let_node, levels_ok, name_ok,
    proj_node, put_bignum, put_expr, put_level, put_levels, put_name, put_string, style_of,
    valid_biguint, valid_expr, valid_level, valid_levels, valid_name, valid_string, wf, DagModel,
};
use crate::name::Name;
use crate::term::{ExprTree, LevelTree, NameTree, NatTree};
use crate::util::{
    interned, interned_at, lemma_index_of, BigUintPtr, ExprPtr, LevelPtr, LevelsPtr, NamePtr,
    StringPtr,
};
use vstd::prelude::*;

verus! {

// ---------------------------------------------------------------------------
// Growth
// ---------------------------------------------------------------------------

/// An arena extends itself.
pub proof fn lemma_extends_refl(d: DagModel)
    ensures
        extends(d, d),
{
    reveal(extends);
}

/// Extending twice is extending.
pub proof fn lemma_extends_trans(d: DagModel, e: DagModel, f: DagModel)
    requires
        extends(d, e),
        extends(e, f),
    ensures
        extends(d, f),
{
    reveal(extends);
}

/// Where a larger arena fits, a smaller one does.
pub proof fn lemma_fits_down(d: DagModel, e: DagModel)
    requires
        extends(d, e),
        fits(e),
    ensures
        fits(d),
{
    reveal(extends);
}

pub proof fn lemma_put_name_grows(d: DagModel, n: Name)
    ensures
        extends(d, put_name(d, n).0),
{
    reveal(extends);
}

pub proof fn lemma_put_level_grows(d: DagModel, l: Level)
    ensures
        extends(d, put_level(d, l).0),
{
    reveal(extends);
}

pub proof fn lemma_put_levels_grows(d: DagModel, ls: Seq<LevelPtr>)
    ensures
        extends(d, put_levels(d, ls).0),
{
    reveal(extends);
}

pub proof fn lemma_put_expr_grows(d: DagModel, x: Expr)
    ensures
        extends(d, put_expr(d, x).0),
{
    reveal(extends);
}

pub proof fn lemma_put_string_grows(d: DagModel, s: Seq<char>)
    ensures
        extends(d, put_string(d, s).0),
{
    reveal(extends);
}

pub proof fn lemma_put_bignum_grows(d: DagModel, v: Seq<u64>)
    ensures
        extends(d, put_bignum(d, v).0),
{
    reveal(extends);
}

/// Importing a name adds to the arena and changes nothing in it.
pub proof fn lemma_name_grows(d: DagModel, t: NameTree)
    ensures
        extends(d, add_name(d, t).0),
    decreases t,
{
    let e = add_name(d, t).0;
    match t {
        NameTree::Anon => {
            lemma_extends_refl(d);
        },
        NameTree::Str(pre, s) => {
            lemma_name_grows(d, *pre);
            let d1 = add_name(d, *pre).0;
            if let Ok(p) = add_name(d, *pre).1 {
                let (d2, q) = put_string(d1, s);
                lemma_put_string_grows(d1, s);
                lemma_put_name_grows(d2, Name::Str(p, q));
                lemma_extends_trans(d, d1, d2);
                lemma_extends_trans(d, d2, e);
            }
        },
        NameTree::Num(pre, n) => {
            lemma_name_grows(d, *pre);
            let d1 = add_name(d, *pre).0;
            if let Ok(p) = add_name(d, *pre).1 {
                if let NatTree::Small(v) = n {
                    lemma_put_name_grows(d1, Name::Num(p, v));
                    lemma_extends_trans(d, d1, e);
                }
            }
        },
    }
}

/// Importing names adds to the arena and changes nothing in it.
pub proof fn lemma_names_grow(d: DagModel, ns: Seq<NameTree>)
    ensures
        extends(d, add_names(d, ns).0),
    decreases ns.len(),
{
    if ns.len() == 0 {
        lemma_extends_refl(d);
    } else {
        let d1 = add_names(d, ns.drop_last()).0;
        lemma_names_grow(d, ns.drop_last());
        lemma_name_grows(d1, ns.last());
        lemma_extends_trans(d, d1, add_name(d1, ns.last()).0);
    }
}

/// Importing a level adds to the arena and changes nothing in it.
pub proof fn lemma_level_grows(d: DagModel, t: LevelTree)
    ensures
        extends(d, add_level(d, t).0),
    decreases t,
{
    let e = add_level(d, t).0;
    match t {
        LevelTree::Succ(a) => {
            lemma_level_grows(d, *a);
            let d1 = add_level(d, *a).0;
            if let Ok(p) = add_level(d, *a).1 {
                lemma_put_level_grows(d1, Level::Succ(p));
                lemma_extends_trans(d, d1, e);
            }
        },
        LevelTree::Max(a, b) => {
            lemma_level_grows(d, *a);
            let d1 = add_level(d, *a).0;
            if let Ok(p) = add_level(d, *a).1 {
                lemma_level_grows(d1, *b);
                let d2 = add_level(d1, *b).0;
                lemma_extends_trans(d, d1, d2);
                if let Ok(q) = add_level(d1, *b).1 {
                    lemma_put_level_grows(d2, Level::Max(p, q));
                    lemma_extends_trans(d, d2, e);
                }
            }
        },
        LevelTree::IMax(a, b) => {
            lemma_level_grows(d, *a);
            let d1 = add_level(d, *a).0;
            if let Ok(p) = add_level(d, *a).1 {
                lemma_level_grows(d1, *b);
                let d2 = add_level(d1, *b).0;
                lemma_extends_trans(d, d1, d2);
                if let Ok(q) = add_level(d1, *b).1 {
                    lemma_put_level_grows(d2, Level::IMax(p, q));
                    lemma_extends_trans(d, d2, e);
                }
            }
        },
        LevelTree::Param(n) => {
            lemma_name_grows(d, n);
            let d1 = add_name(d, n).0;
            if let Ok(p) = add_name(d, n).1 {
                lemma_put_level_grows(d1, Level::Param(p));
                lemma_extends_trans(d, d1, e);
            }
        },
        _ => {
            lemma_extends_refl(d);
        },
    }
}

/// Importing levels adds to the arena and changes nothing in it.
pub proof fn lemma_level_seq_grows(d: DagModel, ls: Seq<LevelTree>)
    ensures
        extends(d, add_level_seq(d, ls).0),
    decreases ls.len(),
{
    if ls.len() == 0 {
        lemma_extends_refl(d);
    } else {
        let d1 = add_level_seq(d, ls.drop_last()).0;
        lemma_level_seq_grows(d, ls.drop_last());
        lemma_level_grows(d1, ls.last());
        lemma_extends_trans(d, d1, add_level(d1, ls.last()).0);
    }
}

/// Importing a sequence of levels adds to the arena and changes nothing in it.
pub proof fn lemma_levels_grow(d: DagModel, ls: Seq<LevelTree>)
    ensures
        extends(d, add_levels(d, ls).0),
{
    let d1 = add_level_seq(d, ls).0;
    lemma_level_seq_grows(d, ls);
    if let Ok(ps) = add_level_seq(d, ls).1 {
        lemma_put_levels_grows(d1, ps);
        lemma_extends_trans(d, d1, add_levels(d, ls).0);
    }
}

/// Importing an expression adds to the arena and changes nothing in it.
pub proof fn lemma_expr_grows(d: DagModel, nat_ext: bool, str_ext: bool, t: ExprTree)
    ensures
        extends(d, add_expr(d, nat_ext, str_ext, t).0),
    decreases t,
{
    let e = add_expr(d, nat_ext, str_ext, t).0;
    lemma_add_expr(d, nat_ext, str_ext, t);
    match t {
        ExprTree::BVar(n) => {
            lemma_extends_refl(d);
            if let NatTree::Small(v) = n {
                lemma_put_expr_grows(d, Expr::Var { dbj_idx: v as u16 });
            }
        },
        ExprTree::Sort(l) => {
            lemma_level_grows(d, l);
            let d1 = add_level(d, l).0;
            if let Ok(level) = add_level(d, l).1 {
                lemma_put_expr_grows(d1, Expr::Sort { level });
                lemma_extends_trans(d, d1, e);
            }
        },
        ExprTree::Const(n, ls) => {
            lemma_name_grows(d, n);
            let d1 = add_name(d, n).0;
            if let Ok(name) = add_name(d, n).1 {
                lemma_levels_grow(d1, ls);
                let d2 = add_levels(d1, ls).0;
                lemma_extends_trans(d, d1, d2);
                if let Ok(levels) = add_levels(d1, ls).1 {
                    lemma_put_expr_grows(d2, Expr::Const { name, levels });
                    lemma_extends_trans(d, d2, e);
                }
            }
        },
        ExprTree::App(f, a) => {
            lemma_expr_grows(d, nat_ext, str_ext, *f);
            let d1 = add_expr(d, nat_ext, str_ext, *f).0;
            if let Ok(fun) = add_expr(d, nat_ext, str_ext, *f).1 {
                lemma_expr_grows(d1, nat_ext, str_ext, *a);
                let d2 = add_expr(d1, nat_ext, str_ext, *a).0;
                lemma_extends_trans(d, d1, d2);
                if let Ok(arg) = add_expr(d1, nat_ext, str_ext, *a).1 {
                    lemma_put_expr_grows(d2, app_node(d2, fun, arg));
                    lemma_extends_trans(d, d2, e);
                }
            }
        },
        ExprTree::Lambda(n, bi, ty, body) => {
            lemma_name_grows(d, n);
            let d1 = add_name(d, n).0;
            if let Ok(name) = add_name(d, n).1 {
                lemma_expr_grows(d1, nat_ext, str_ext, *ty);
                let d2 = add_expr(d1, nat_ext, str_ext, *ty).0;
                lemma_extends_trans(d, d1, d2);
                if let Ok(p) = add_expr(d1, nat_ext, str_ext, *ty).1 {
                    lemma_expr_grows(d2, nat_ext, str_ext, *body);
                    let d3 = add_expr(d2, nat_ext, str_ext, *body).0;
                    lemma_extends_trans(d, d2, d3);
                    if let Ok(b) = add_expr(d2, nat_ext, str_ext, *body).1 {
                        lemma_put_expr_grows(d3, binding_node(d3, false, name, style_of(bi), p, b));
                        lemma_extends_trans(d, d3, e);
                    }
                }
            }
        },
        ExprTree::Pi(n, bi, ty, body) => {
            lemma_name_grows(d, n);
            let d1 = add_name(d, n).0;
            if let Ok(name) = add_name(d, n).1 {
                lemma_expr_grows(d1, nat_ext, str_ext, *ty);
                let d2 = add_expr(d1, nat_ext, str_ext, *ty).0;
                lemma_extends_trans(d, d1, d2);
                if let Ok(p) = add_expr(d1, nat_ext, str_ext, *ty).1 {
                    lemma_expr_grows(d2, nat_ext, str_ext, *body);
                    let d3 = add_expr(d2, nat_ext, str_ext, *body).0;
                    lemma_extends_trans(d, d2, d3);
                    if let Ok(b) = add_expr(d2, nat_ext, str_ext, *body).1 {
                        lemma_put_expr_grows(d3, binding_node(d3, true, name, style_of(bi), p, b));
                        lemma_extends_trans(d, d3, e);
                    }
                }
            }
        },
        ExprTree::Let(n, ty, val, body, nondep) => {
            lemma_name_grows(d, n);
            let d1 = add_name(d, n).0;
            if let Ok(name) = add_name(d, n).1 {
                lemma_expr_grows(d1, nat_ext, str_ext, *ty);
                let d2 = add_expr(d1, nat_ext, str_ext, *ty).0;
                lemma_extends_trans(d, d1, d2);
                if let Ok(p) = add_expr(d1, nat_ext, str_ext, *ty).1 {
                    lemma_expr_grows(d2, nat_ext, str_ext, *val);
                    let d3 = add_expr(d2, nat_ext, str_ext, *val).0;
                    lemma_extends_trans(d, d2, d3);
                    if let Ok(q) = add_expr(d2, nat_ext, str_ext, *val).1 {
                        lemma_expr_grows(d3, nat_ext, str_ext, *body);
                        let d4 = add_expr(d3, nat_ext, str_ext, *body).0;
                        lemma_extends_trans(d, d3, d4);
                        if let Ok(b) = add_expr(d3, nat_ext, str_ext, *body).1 {
                            lemma_put_expr_grows(d4, let_node(d4, name, p, q, b, nondep));
                            lemma_extends_trans(d, d4, e);
                        }
                    }
                }
            }
        },
        ExprTree::NatLit(n) => {
            lemma_extends_refl(d);
            let v = limbs_of(n.value());
            lemma_put_bignum_grows(d, v);
            let d1 = put_bignum(d, v).0;
            if let Ok(ptr) = put_bignum(d, v).1 {
                lemma_put_expr_grows(d1, Expr::NatLit { ptr });
                lemma_extends_trans(d, d1, put_expr(d1, Expr::NatLit { ptr }).0);
            }
        },
        ExprTree::StrLit(s) => {
            lemma_extends_refl(d);
            let (d1, ptr) = put_string(d, s);
            lemma_put_string_grows(d, s);
            lemma_put_expr_grows(d1, Expr::StringLit { ptr });
            lemma_extends_trans(d, d1, put_expr(d1, Expr::StringLit { ptr }).0);
        },
        ExprTree::MData(x) => {
            lemma_expr_grows(d, nat_ext, str_ext, *x);
        },
        ExprTree::Proj(n, i, x) => {
            lemma_name_grows(d, n);
            let d1 = add_name(d, n).0;
            if let Ok(ty_name) = add_name(d, n).1 {
                if let NatTree::Small(idx) = i {
                    lemma_expr_grows(d1, nat_ext, str_ext, *x);
                    let d2 = add_expr(d1, nat_ext, str_ext, *x).0;
                    lemma_extends_trans(d, d1, d2);
                    if let Ok(structure) = add_expr(d1, nat_ext, str_ext, *x).1 {
                        lemma_put_expr_grows(d2, proj_node(d2, ty_name, idx, structure));
                        lemma_extends_trans(d, d2, e);
                    }
                }
            }
        },
        _ => {
            lemma_extends_refl(d);
        },
    }
}

// ---------------------------------------------------------------------------
// Staying an arena
// ---------------------------------------------------------------------------

proof fn lemma_interned<A>(s: Seq<A>, x: A)
    requires
        s.no_duplicates(),
    ensures
        interned(s, x).no_duplicates(),
        0 <= interned_at(s, x) < interned(s, x).len(),
        interned(s, x)[interned_at(s, x)] == x,
        s.contains(x) || interned_at(s, x) == s.len(),
{
    let t = interned(s, x);
    if s.contains(x) {
        let i = choose|i: int| 0 <= i < s.len() && s[i] == x;
        lemma_index_of(t, i);
    } else {
        assert(t[s.len() as int] == x);
        assert forall|i: int, j: int| 0 <= i < t.len() && 0 <= j < t.len() && i != j implies t[i]
            != t[j] by {
            if i == s.len() {
                assert(s.contains(s[j]));
            } else if j == s.len() {
                assert(s.contains(s[i]));
            }
        }
        lemma_index_of(t, s.len() as int);
    }
}

proof fn lemma_expr_ok_extends(d: DagModel, e: DagModel, x: Expr, bound: int)
    requires
        extends(d, e),
        expr_ok(d, x, bound),
    ensures
        expr_ok(e, x, bound),
{
    reveal(extends);
}

/// What can stand in an arena can stand in a larger one.
proof fn lemma_ok_extends(d: DagModel, e: DagModel)
    requires
        wf(d),
        extends(d, e),
    ensures
        forall|i: int| 0 <= i < d.names.len() ==> name_ok(e, #[trigger] e.names[i], i),
        forall|i: int| 0 <= i < d.levels.len() ==> level_ok(e, #[trigger] e.levels[i], i),
        forall|i: int| 0 <= i < d.uparams.len() ==> levels_ok(e, #[trigger] e.uparams[i]),
        forall|i: int| 0 <= i < d.exprs.len() ==> expr_ok(e, #[trigger] e.exprs[i], i),
{
    reveal(extends);
    reveal(wf);
    assert forall|i: int| 0 <= i < d.names.len() implies name_ok(e, #[trigger] e.names[i], i) by {
        assert(name_ok(d, d.names[i], i));
    }
    assert forall|i: int| 0 <= i < d.levels.len() implies level_ok(
        e,
        #[trigger] e.levels[i],
        i,
    ) by {
        assert(level_ok(d, d.levels[i], i));
    }
    assert forall|i: int| 0 <= i < d.uparams.len() implies levels_ok(
        e,
        #[trigger] e.uparams[i],
    ) by {
        assert(levels_ok(d, d.uparams[i]));
    }
    assert forall|i: int| 0 <= i < d.exprs.len() implies expr_ok(e, #[trigger] e.exprs[i], i) by {
        assert(expr_ok(d, d.exprs[i], i));
        lemma_expr_ok_extends(d, e, d.exprs[i], i);
    }
}

/// Interning a name that can stand in the arena keeps it an arena.
pub proof fn lemma_put_name(d: DagModel, n: Name)
    requires
        wf(d),
        name_ok(d, n, d.names.len() as int),
        fits(put_name(d, n).0),
    ensures
        wf(put_name(d, n).0),
        extends(d, put_name(d, n).0),
        valid_name(put_name(d, n).0, put_name(d, n).1),
        put_name(d, n).0.names[put_name(d, n).1.idx as int] == n,
{
    let e = put_name(d, n).0;
    reveal(extends);
    reveal(wf);
    lemma_interned(d.names, n);
    lemma_ok_extends(d, e);
}

/// Interning a level that can stand in the arena keeps it an arena.
pub proof fn lemma_put_level(d: DagModel, l: Level)
    requires
        wf(d),
        level_ok(d, l, d.levels.len() as int),
        fits(put_level(d, l).0),
    ensures
        wf(put_level(d, l).0),
        extends(d, put_level(d, l).0),
        valid_level(put_level(d, l).0, put_level(d, l).1),
        put_level(d, l).0.levels[put_level(d, l).1.idx as int] == l,
{
    let e = put_level(d, l).0;
    reveal(extends);
    reveal(wf);
    lemma_interned(d.levels, l);
    lemma_ok_extends(d, e);
}

/// Interning a sequence of levels that can stand in the arena keeps it an arena.
pub proof fn lemma_put_levels(d: DagModel, ls: Seq<LevelPtr>)
    requires
        wf(d),
        levels_ok(d, ls),
        fits(put_levels(d, ls).0),
    ensures
        wf(put_levels(d, ls).0),
        extends(d, put_levels(d, ls).0),
        valid_levels(put_levels(d, ls).0, put_levels(d, ls).1),
        put_levels(d, ls).0.uparams[put_levels(d, ls).1.idx as int] == ls,
{
    let e = put_levels(d, ls).0;
    reveal(extends);
    reveal(wf);
    lemma_interned(d.uparams, ls);
    lemma_ok_extends(d, e);
}

/// Interning an expression that can stand in the arena keeps it an arena.
pub proof fn lemma_put_expr(d: DagModel, x: Expr)
    requires
        wf(d),
        expr_ok(d, x, d.exprs.len() as int),
        fits(put_expr(d, x).0),
    ensures
        wf(put_expr(d, x).0),
        extends(d, put_expr(d, x).0),
        valid_expr(put_expr(d, x).0, put_expr(d, x).1),
        put_expr(d, x).0.exprs[put_expr(d, x).1.idx as int] == x,
{
    let e = put_expr(d, x).0;
    reveal(extends);
    reveal(wf);
    lemma_interned(d.exprs, x);
    lemma_ok_extends(d, e);
    lemma_expr_ok_extends(d, e, x, d.exprs.len() as int);
}

/// Interning a string keeps the arena an arena.
pub proof fn lemma_put_string(d: DagModel, s: Seq<char>)
    requires
        wf(d),
        fits(put_string(d, s).0),
    ensures
        wf(put_string(d, s).0),
        extends(d, put_string(d, s).0),
        valid_string(put_string(d, s).0, put_string(d, s).1),
        put_string(d, s).0.strings[put_string(d, s).1.idx as int] == s,
{
    let e = put_string(d, s).0;
    reveal(extends);
    reveal(wf);
    lemma_interned(d.strings, s);
    lemma_ok_extends(d, e);
}

/// Interning a big natural number keeps the arena an arena.
pub proof fn lemma_put_bignum(d: DagModel, v: nat)
    requires
        wf(d),
        fits(put_bignum(d, limbs_of(v)).0),
    ensures
        wf(put_bignum(d, limbs_of(v)).0),
        extends(d, put_bignum(d, limbs_of(v)).0),
        put_bignum(d, limbs_of(v)).1 matches Ok(p) ==> {
            &&& valid_biguint(put_bignum(d, limbs_of(v)).0, p)
            &&& put_bignum(d, limbs_of(v)).0.bignums->0[p.idx as int] == limbs_of(v)
        },
{
    reveal(extends);
    reveal(wf);
    let e = put_bignum(d, limbs_of(v)).0;
    match d.bignums {
        Some(s) => {
            lemma_interned(s, limbs_of(v));
            law_limbs_roundtrip(v);
            lemma_ok_extends(d, e);
        },
        None => {},
    }
}

/// What a pointer points at stays where it is.
pub proof fn lemma_valid_extends(d: DagModel, e: DagModel)
    requires
        extends(d, e),
    ensures
        forall|p: NamePtr| valid_name(d, p) ==> #[trigger] valid_name(e, p) && d.names[p.idx as int]
            == e.names[p.idx as int],
        forall|p: LevelPtr| valid_level(d, p) ==> #[trigger] valid_level(e, p)
            && d.levels[p.idx as int] == e.levels[p.idx as int],
        forall|p: LevelsPtr| valid_levels(d, p) ==> #[trigger] valid_levels(e, p)
            && d.uparams[p.idx as int] == e.uparams[p.idx as int],
        forall|p: ExprPtr| valid_expr(d, p) ==> #[trigger] valid_expr(e, p) && d.exprs[p.idx as int]
            == e.exprs[p.idx as int],
        forall|p: StringPtr| valid_string(d, p) ==> #[trigger] valid_string(e, p)
            && d.strings[p.idx as int] == e.strings[p.idx as int],
        forall|p: BigUintPtr| valid_biguint(d, p) ==> #[trigger] valid_biguint(e, p)
            && d.bignums->0[p.idx as int] == e.bignums->0[p.idx as int],
{
    reveal(extends);
}

/// Importing a name keeps the arena an arena and returns a pointer into it.
pub proof fn lemma_name_wf(d: DagModel, t: NameTree)
    requires
        wf(d),
        fits(add_name(d, t).0),
    ensures
        wf(add_name(d, t).0),
        add_name(d, t).1 matches Ok(p) ==> valid_name(add_name(d, t).0, p),
    decreases t,
{
    let e = add_name(d, t).0;
    match t {
        NameTree::Anon => {
            reveal(wf);
        },
        NameTree::Str(pre, s) => {
            let d1 = add_name(d, *pre).0;
            if let Ok(p) = add_name(d, *pre).1 {
                let (d2, q) = put_string(d1, s);
                lemma_put_string_grows(d1, s);
                lemma_put_name_grows(d2, Name::Str(p, q));
                lemma_fits_down(d2, e);
                lemma_fits_down(d1, d2);
                lemma_name_wf(d, *pre);
                lemma_put_string(d1, s);
                lemma_valid_extends(d1, d2);
                assert(valid_name(d2, p));
                lemma_put_name(d2, Name::Str(p, q));
            } else {
                lemma_name_wf(d, *pre);
            }
        },
        NameTree::Num(pre, n) => {
            let d1 = add_name(d, *pre).0;
            match (add_name(d, *pre).1, n) {
                (Ok(p), NatTree::Small(v)) => {
                    lemma_put_name_grows(d1, Name::Num(p, v));
                    lemma_fits_down(d1, e);
                    lemma_name_wf(d, *pre);
                    lemma_put_name(d1, Name::Num(p, v));
                },
                _ => {
                    lemma_name_wf(d, *pre);
                },
            }
        },
    }
}

/// Importing a level keeps the arena an arena and returns a pointer into it.
pub proof fn lemma_level_wf(d: DagModel, t: LevelTree)
    requires
        wf(d),
        fits(add_level(d, t).0),
    ensures
        wf(add_level(d, t).0),
        add_level(d, t).1 matches Ok(p) ==> valid_level(add_level(d, t).0, p),
    decreases t,
{
    let e = add_level(d, t).0;
    match t {
        LevelTree::Succ(a) => {
            let d1 = add_level(d, *a).0;
            if let Ok(p) = add_level(d, *a).1 {
                lemma_put_level_grows(d1, Level::Succ(p));
                lemma_fits_down(d1, e);
                lemma_level_wf(d, *a);
                lemma_put_level(d1, Level::Succ(p));
            } else {
                lemma_level_wf(d, *a);
            }
        },
        LevelTree::Max(a, b) => {
            let d1 = add_level(d, *a).0;
            if let Ok(p) = add_level(d, *a).1 {
                let d2 = add_level(d1, *b).0;
                lemma_level_grows(d1, *b);
                if let Ok(q) = add_level(d1, *b).1 {
                    lemma_put_level_grows(d2, Level::Max(p, q));
                    lemma_fits_down(d2, e);
                }
                lemma_fits_down(d1, d2);
                lemma_level_wf(d, *a);
                lemma_level_wf(d1, *b);
                if let Ok(q) = add_level(d1, *b).1 {
                    lemma_valid_extends(d1, d2);
                    assert(valid_level(d2, p));
                    lemma_put_level(d2, Level::Max(p, q));
                }
            } else {
                lemma_level_wf(d, *a);
            }
        },
        LevelTree::IMax(a, b) => {
            let d1 = add_level(d, *a).0;
            if let Ok(p) = add_level(d, *a).1 {
                let d2 = add_level(d1, *b).0;
                lemma_level_grows(d1, *b);
                if let Ok(q) = add_level(d1, *b).1 {
                    lemma_put_level_grows(d2, Level::IMax(p, q));
                    lemma_fits_down(d2, e);
                }
                lemma_fits_down(d1, d2);
                lemma_level_wf(d, *a);
                lemma_level_wf(d1, *b);
                if let Ok(q) = add_level(d1, *b).1 {
                    lemma_valid_extends(d1, d2);
                    assert(valid_level(d2, p));
                    lemma_put_level(d2, Level::IMax(p, q));
                }
            } else {
                lemma_level_wf(d, *a);
            }
        },
        LevelTree::Param(n) => {
            let d1 = add_name(d, n).0;
            if let Ok(p) = add_name(d, n).1 {
                lemma_put_level_grows(d1, Level::Param(p));
                lemma_fits_down(d1, e);
                lemma_name_wf(d, n);
                lemma_put_level(d1, Level::Param(p));
            } else {
                lemma_name_wf(d, n);
            }
        },
        _ => {
            reveal(wf);
        },
    }
}

/// Importing levels keeps the arena an arena and returns pointers into it.
pub proof fn lemma_level_seq_wf(d: DagModel, ls: Seq<LevelTree>)
    requires
        wf(d),
        fits(add_level_seq(d, ls).0),
    ensures
        wf(add_level_seq(d, ls).0),
        add_level_seq(d, ls).1 matches Ok(ps) ==> ps.len() == ls.len() && levels_ok(
            add_level_seq(d, ls).0,
            ps,
        ),
    decreases ls.len(),
{
    if ls.len() > 0 {
        let d1 = add_level_seq(d, ls.drop_last()).0;
        let d2 = add_level(d1, ls.last()).0;
        lemma_level_grows(d1, ls.last());
        if let Ok(ps) = add_level_seq(d, ls.drop_last()).1 {
            lemma_fits_down(d1, d2);
            lemma_level_seq_wf(d, ls.drop_last());
            lemma_level_wf(d1, ls.last());
            lemma_valid_extends(d1, d2);
            if let Ok(p) = add_level(d1, ls.last()).1 {
                assert forall|i: int| 0 <= i < ps.push(p).len() implies valid_level(
                    d2,
                    #[trigger] ps.push(p)[i],
                ) by {
                    if i < ps.len() {
                        assert(valid_level(d1, ps[i]));
                    }
                }
            }
        } else {
            lemma_level_seq_wf(d, ls.drop_last());
        }
    }
}

/// Importing a sequence of levels keeps the arena an arena and returns a
/// pointer into it.
pub proof fn lemma_levels_wf(d: DagModel, ls: Seq<LevelTree>)
    requires
        wf(d),
        fits(add_levels(d, ls).0),
    ensures
        wf(add_levels(d, ls).0),
        add_levels(d, ls).1 matches Ok(p) ==> valid_levels(add_levels(d, ls).0, p),
{
    let d1 = add_level_seq(d, ls).0;
    if let Ok(ps) = add_level_seq(d, ls).1 {
        lemma_put_levels_grows(d1, ps);
        lemma_fits_down(d1, add_levels(d, ls).0);
        lemma_level_seq_wf(d, ls);
        lemma_put_levels(d1, ps);
    } else {
        lemma_level_seq_wf(d, ls);
    }
}

/// Importing an expression keeps the arena an arena and returns a pointer
/// into it.
pub proof fn lemma_expr_wf(d: DagModel, nat_ext: bool, str_ext: bool, t: ExprTree)
    requires
        wf(d),
        fits(add_expr(d, nat_ext, str_ext, t).0),
    ensures
        wf(add_expr(d, nat_ext, str_ext, t).0),
        add_expr(d, nat_ext, str_ext, t).1 matches Ok(p) ==> valid_expr(
            add_expr(d, nat_ext, str_ext, t).0,
            p,
        ),
    decreases t,
{
    let e = add_expr(d, nat_ext, str_ext, t).0;
    lemma_add_expr(d, nat_ext, str_ext, t);
    match t {
        ExprTree::BVar(n) => {
            if let NatTree::Small(v) = n {
                if v <= 0xffff {
                    lemma_put_expr(d, Expr::Var { dbj_idx: v as u16 });
                }
            }
        },
        ExprTree::Sort(l) => {
            let d1 = add_level(d, l).0;
            if let Ok(level) = add_level(d, l).1 {
                lemma_put_expr_grows(d1, Expr::Sort { level });
                lemma_fits_down(d1, e);
                lemma_level_wf(d, l);
                lemma_put_expr(d1, Expr::Sort { level });
            } else {
                lemma_level_wf(d, l);
            }
        },
        ExprTree::Const(n, ls) => {
            let d1 = add_name(d, n).0;
            if let Ok(name) = add_name(d, n).1 {
                let d2 = add_levels(d1, ls).0;
                lemma_levels_grow(d1, ls);
                if let Ok(levels) = add_levels(d1, ls).1 {
                    lemma_put_expr_grows(d2, Expr::Const { name, levels });
                    lemma_fits_down(d2, e);
                }
                lemma_fits_down(d1, d2);
                lemma_name_wf(d, n);
                lemma_levels_wf(d1, ls);
                if let Ok(levels) = add_levels(d1, ls).1 {
                    lemma_valid_extends(d1, d2);
                    assert(valid_name(d2, name));
                    lemma_put_expr(d2, Expr::Const { name, levels });
                }
            } else {
                lemma_name_wf(d, n);
            }
        },
        ExprTree::App(f, a) => {
            let d1 = add_expr(d, nat_ext, str_ext, *f).0;
            if let Ok(fun) = add_expr(d, nat_ext, str_ext, *f).1 {
                let d2 = add_expr(d1, nat_ext, str_ext, *a).0;
                lemma_expr_grows(d1, nat_ext, str_ext, *a);
                if let Ok(arg) = add_expr(d1, nat_ext, str_ext, *a).1 {
                    lemma_put_expr_grows(d2, app_node(d2, fun, arg));
                    lemma_fits_down(d2, e);
                }
                lemma_fits_down(d1, d2);
                lemma_expr_wf(d, nat_ext, str_ext, *f);
                lemma_expr_wf(d1, nat_ext, str_ext, *a);
                if let Ok(arg) = add_expr(d1, nat_ext, str_ext, *a).1 {
                    lemma_valid_extends(d1, d2);
                    assert(valid_expr(d2, fun));
                    lemma_put_expr(d2, app_node(d2, fun, arg));
                }
            } else {
                lemma_expr_wf(d, nat_ext, str_ext, *f);
            }
        },
        ExprTree::Lambda(n, bi, ty, body) => {
            let d1 = add_name(d, n).0;
            if let Ok(name) = add_name(d, n).1 {
                let d2 = add_expr(d1, nat_ext, str_ext, *ty).0;
                lemma_expr_grows(d1, nat_ext, str_ext, *ty);
                if let Ok(p) = add_expr(d1, nat_ext, str_ext, *ty).1 {
                    let d3 = add_expr(d2, nat_ext, str_ext, *body).0;
                    lemma_expr_grows(d2, nat_ext, str_ext, *body);
                    if let Ok(b) = add_expr(d2, nat_ext, str_ext, *body).1 {
                        lemma_put_expr_grows(d3, binding_node(d3, false, name, style_of(bi), p, b));
                        lemma_fits_down(d3, e);
                    }
                    lemma_fits_down(d2, d3);
                }
                lemma_fits_down(d1, d2);
                lemma_name_wf(d, n);
                lemma_expr_wf(d1, nat_ext, str_ext, *ty);
                if let Ok(p) = add_expr(d1, nat_ext, str_ext, *ty).1 {
                    let d3 = add_expr(d2, nat_ext, str_ext, *body).0;
                    lemma_expr_wf(d2, nat_ext, str_ext, *body);
                    if let Ok(b) = add_expr(d2, nat_ext, str_ext, *body).1 {
                        lemma_valid_extends(d1, d2);
                        lemma_valid_extends(d2, d3);
                        assert(valid_name(d2, name) && valid_name(d3, name));
                        assert(valid_expr(d3, p));
                        lemma_put_expr(d3, binding_node(d3, false, name, style_of(bi), p, b));
                    }
                }
            } else {
                lemma_name_wf(d, n);
            }
        },
        ExprTree::Pi(n, bi, ty, body) => {
            let d1 = add_name(d, n).0;
            if let Ok(name) = add_name(d, n).1 {
                let d2 = add_expr(d1, nat_ext, str_ext, *ty).0;
                lemma_expr_grows(d1, nat_ext, str_ext, *ty);
                if let Ok(p) = add_expr(d1, nat_ext, str_ext, *ty).1 {
                    let d3 = add_expr(d2, nat_ext, str_ext, *body).0;
                    lemma_expr_grows(d2, nat_ext, str_ext, *body);
                    if let Ok(b) = add_expr(d2, nat_ext, str_ext, *body).1 {
                        lemma_put_expr_grows(d3, binding_node(d3, true, name, style_of(bi), p, b));
                        lemma_fits_down(d3, e);
                    }
                    lemma_fits_down(d2, d3);
                }
                lemma_fits_down(d1, d2);
                lemma_name_wf(d, n);
                lemma_expr_wf(d1, nat_ext, str_ext, *ty);
                if let Ok(p) = add_expr(d1, nat_ext, str_ext, *ty).1 {
                    let d3 = add_expr(d2, nat_ext, str_ext, *body).0;
                    lemma_expr_wf(d2, nat_ext, str_ext, *body);
                    if let Ok(b) = add_expr(d2, nat_ext, str_ext, *body).1 {
                        lemma_valid_extends(d1, d2);
                        lemma_valid_extends(d2, d3);
                        assert(valid_name(d2, name) && valid_name(d3, name));
                        assert(valid_expr(d3, p));
                        lemma_put_expr(d3, binding_node(d3, true, name, style_of(bi), p, b));
                    }
                }
            } else {
                lemma_name_wf(d, n);
            }
        },
        ExprTree::Let(n, ty, val, body, nondep) => {
            let d1 = add_name(d, n).0;
            if let Ok(name) = add_name(d, n).1 {
                let d2 = add_expr(d1, nat_ext, str_ext, *ty).0;
                lemma_expr_grows(d1, nat_ext, str_ext, *ty);
                if let Ok(p) = add_expr(d1, nat_ext, str_ext, *ty).1 {
                    let d3 = add_expr(d2, nat_ext, str_ext, *val).0;
                    lemma_expr_grows(d2, nat_ext, str_ext, *val);
                    if let Ok(q) = add_expr(d2, nat_ext, str_ext, *val).1 {
                        let d4 = add_expr(d3, nat_ext, str_ext, *body).0;
                        lemma_expr_grows(d3, nat_ext, str_ext, *body);
                        if let Ok(b) = add_expr(d3, nat_ext, str_ext, *body).1 {
                            lemma_put_expr_grows(d4, let_node(d4, name, p, q, b, nondep));
                            lemma_fits_down(d4, e);
                        }
                        lemma_fits_down(d3, d4);
                    }
                    lemma_fits_down(d2, d3);
                }
                lemma_fits_down(d1, d2);
                lemma_name_wf(d, n);
                lemma_expr_wf(d1, nat_ext, str_ext, *ty);
                if let Ok(p) = add_expr(d1, nat_ext, str_ext, *ty).1 {
                    let d3 = add_expr(d2, nat_ext, str_ext, *val).0;
                    lemma_expr_wf(d2, nat_ext, str_ext, *val);
                    if let Ok(q) = add_expr(d2, nat_ext, str_ext, *val).1 {
                        let d4 = add_expr(d3, nat_ext, str_ext, *body).0;
                        lemma_expr_wf(d3, nat_ext, str_ext, *body);
                        if let Ok(b) = add_expr(d3, nat_ext, str_ext, *body).1 {
                            lemma_valid_extends(d1, d2);
                            lemma_valid_extends(d2, d3);
                            lemma_valid_extends(d3, d4);
                            assert(valid_name(d2, name) && valid_name(d3, name) && valid_name(
                                d4,
                                name,
                            ));
                            assert(valid_expr(d3, p) && valid_expr(d4, p));
                            assert(valid_expr(d4, q));
                            lemma_put_expr(d4, let_node(d4, name, p, q, b, nondep));
                        }
                    }
                }
            } else {
                lemma_name_wf(d, n);
            }
        },
        ExprTree::NatLit(n) => {
            if nat_ext {
                let v = limbs_of(n.value());
                let d1 = put_bignum(d, v).0;
                if let Ok(ptr) = put_bignum(d, v).1 {
                    lemma_put_expr_grows(d1, Expr::NatLit { ptr });
                    lemma_fits_down(d1, e);
                    lemma_put_bignum(d, n.value());
                    lemma_put_expr(d1, Expr::NatLit { ptr });
                }
            }
        },
        ExprTree::StrLit(s) => {
            if str_ext {
                let (d1, ptr) = put_string(d, s);
                lemma_put_expr_grows(d1, Expr::StringLit { ptr });
                lemma_fits_down(d1, e);
                lemma_put_string(d, s);
                lemma_put_expr(d1, Expr::StringLit { ptr });
            }
        },
        ExprTree::MData(x) => {
            lemma_expr_wf(d, nat_ext, str_ext, *x);
        },
        ExprTree::Proj(n, i, x) => {
            let d1 = add_name(d, n).0;
            match (add_name(d, n).1, i) {
                (Ok(ty_name), NatTree::Small(idx)) => {
                    let d2 = add_expr(d1, nat_ext, str_ext, *x).0;
                    lemma_expr_grows(d1, nat_ext, str_ext, *x);
                    if let Ok(structure) = add_expr(d1, nat_ext, str_ext, *x).1 {
                        lemma_put_expr_grows(d2, proj_node(d2, ty_name, idx, structure));
                        lemma_fits_down(d2, e);
                    }
                    lemma_fits_down(d1, d2);
                    lemma_name_wf(d, n);
                    lemma_expr_wf(d1, nat_ext, str_ext, *x);
                    if let Ok(structure) = add_expr(d1, nat_ext, str_ext, *x).1 {
                        lemma_valid_extends(d1, d2);
                        assert(valid_name(d2, ty_name));
                        lemma_put_expr(d2, proj_node(d2, ty_name, idx, structure));
                    }
                },
                _ => {
                    lemma_name_wf(d, n);
                },
            }
        },
        _ => {},
    }
}

// ---------------------------------------------------------------------------
// Importing once and for all
// ---------------------------------------------------------------------------

proof fn lemma_interned_settled<A>(s: Seq<A>, x: A, t: Seq<A>)
    requires
        begins_with(t, interned(s, x)),
        t.no_duplicates(),
    ensures
        interned(t, x) == t,
        interned_at(t, x) == interned_at(s, x),
{
    let u = interned(s, x);
    assert(u.contains(x)) by {
        if !s.contains(x) {
            assert(u[s.len() as int] == x);
        }
    }
    let i = u.index_of(x);
    assert(0 <= i < u.len() && u[i] == x);
    assert(t[i] == x);
    lemma_index_of(t, i);
}

proof fn lemma_put_name_settled(d: DagModel, n: Name, f: DagModel)
    requires
        extends(put_name(d, n).0, f),
        wf(f),
    ensures
        put_name(f, n) == (f, put_name(d, n).1),
{
    reveal(extends);
    reveal(wf);
    lemma_interned_settled(d.names, n, f.names);
}

proof fn lemma_put_level_settled(d: DagModel, l: Level, f: DagModel)
    requires
        extends(put_level(d, l).0, f),
        wf(f),
    ensures
        put_level(f, l) == (f, put_level(d, l).1),
{
    reveal(extends);
    reveal(wf);
    lemma_interned_settled(d.levels, l, f.levels);
}

proof fn lemma_put_levels_settled(d: DagModel, ls: Seq<LevelPtr>, f: DagModel)
    requires
        extends(put_levels(d, ls).0, f),
        wf(f),
    ensures
        put_levels(f, ls) == (f, put_levels(d, ls).1),
{
    reveal(extends);
    reveal(wf);
    lemma_interned_settled(d.uparams, ls, f.uparams);
}

proof fn lemma_put_expr_settled(d: DagModel, x: Expr, f: DagModel)
    requires
        extends(put_expr(d, x).0, f),
        wf(f),
    ensures
        put_expr(f, x) == (f, put_expr(d, x).1),
{
    reveal(extends);
    reveal(wf);
    lemma_interned_settled(d.exprs, x, f.exprs);
}

proof fn lemma_put_string_settled(d: DagModel, s: Seq<char>, f: DagModel)
    requires
        extends(put_string(d, s).0, f),
        wf(f),
    ensures
        put_string(f, s) == (f, put_string(d, s).1),
{
    reveal(extends);
    reveal(wf);
    lemma_interned_settled(d.strings, s, f.strings);
}

proof fn lemma_put_bignum_settled(d: DagModel, v: Seq<u64>, f: DagModel)
    requires
        put_bignum(d, v).1 is Ok,
        extends(put_bignum(d, v).0, f),
        wf(f),
    ensures
        put_bignum(f, v) == (f, put_bignum(d, v).1),
{
    reveal(extends);
    reveal(wf);
    lemma_interned_settled(d.bignums->0, v, f.bignums->0);
}

/// A name that was imported is imported for good: importing it again, into
/// whatever the arena has grown to, adds nothing and returns the same pointer.
pub proof fn lemma_name_settles(d: DagModel, t: NameTree, f: DagModel)
    requires
        wf(d),
        fits(add_name(d, t).0),
        add_name(d, t).1 is Ok,
        extends(add_name(d, t).0, f),
        wf(f),
    ensures
        add_name(f, t) == (f, add_name(d, t).1),
    decreases t,
{
    let e = add_name(d, t).0;
    match t {
        NameTree::Anon => {},
        NameTree::Str(pre, s) => {
            let d1 = add_name(d, *pre).0;
            let p = add_name(d, *pre).1->Ok_0;
            let (d2, q) = put_string(d1, s);
            lemma_put_string_grows(d1, s);
            lemma_put_name_grows(d2, Name::Str(p, q));
            lemma_fits_down(d2, e);
            lemma_fits_down(d1, d2);
            lemma_extends_trans(d2, e, f);
            lemma_extends_trans(d1, d2, f);
            lemma_name_settles(d, *pre, f);
            lemma_put_string_settled(d1, s, f);
            lemma_put_name_settled(d2, Name::Str(p, q), f);
        },
        NameTree::Num(pre, n) => {
            let d1 = add_name(d, *pre).0;
            let p = add_name(d, *pre).1->Ok_0;
            if let NatTree::Small(v) = n {
                lemma_put_name_grows(d1, Name::Num(p, v));
                lemma_fits_down(d1, e);
                lemma_extends_trans(d1, e, f);
                lemma_name_settles(d, *pre, f);
                lemma_put_name_settled(d1, Name::Num(p, v), f);
            }
        },
    }
}

/// A level that was imported is imported for good.
pub proof fn lemma_level_settles(d: DagModel, t: LevelTree, f: DagModel)
    requires
        wf(d),
        fits(add_level(d, t).0),
        add_level(d, t).1 is Ok,
        extends(add_level(d, t).0, f),
        wf(f),
    ensures
        add_level(f, t) == (f, add_level(d, t).1),
    decreases t,
{
    let e = add_level(d, t).0;
    match t {
        LevelTree::Succ(a) => {
            let d1 = add_level(d, *a).0;
            let p = add_level(d, *a).1->Ok_0;
            lemma_put_level_grows(d1, Level::Succ(p));
            lemma_fits_down(d1, e);
            lemma_extends_trans(d1, e, f);
            lemma_level_settles(d, *a, f);
            lemma_put_level_settled(d1, Level::Succ(p), f);
        },
        LevelTree::Max(a, b) => {
            let d1 = add_level(d, *a).0;
            let p = add_level(d, *a).1->Ok_0;
            let d2 = add_level(d1, *b).0;
            let q = add_level(d1, *b).1->Ok_0;
            lemma_put_level_grows(d2, Level::Max(p, q));
            lemma_level_grows(d1, *b);
            lemma_fits_down(d2, e);
            lemma_fits_down(d1, d2);
            lemma_extends_trans(d2, e, f);
            lemma_extends_trans(d1, d2, f);
            lemma_level_wf(d, *a);
            lemma_level_settles(d, *a, f);
            lemma_level_settles(d1, *b, f);
            lemma_put_level_settled(d2, Level::Max(p, q), f);
        },
        LevelTree::IMax(a, b) => {
            let d1 = add_level(d, *a).0;
            let p = add_level(d, *a).1->Ok_0;
            let d2 = add_level(d1, *b).0;
            let q = add_level(d1, *b).1->Ok_0;
            lemma_put_level_grows(d2, Level::IMax(p, q));
            lemma_level_grows(d1, *b);
            lemma_fits_down(d2, e);
            lemma_fits_down(d1, d2);
            lemma_extends_trans(d2, e, f);
            lemma_extends_trans(d1, d2, f);
            lemma_level_wf(d, *a);
            lemma_level_settles(d, *a, f);
            lemma_level_settles(d1, *b, f);
            lemma_put_level_settled(d2, Level::IMax(p, q), f);
        },
        LevelTree::Param(n) => {
            let d1 = add_name(d, n).0;
            let p = add_name(d, n).1->Ok_0;
            lemma_put_level_grows(d1, Level::Param(p));
            lemma_fits_down(d1, e);
            lemma_extends_trans(d1, e, f);
            lemma_name_settles(d, n, f);
            lemma_put_level_settled(d1, Level::Param(p), f);
        },
        _ => {},
    }
}

/// Levels that were imported are imported for good.
pub proof fn lemma_level_seq_settles(d: DagModel, ls: Seq<LevelTree>, f: DagModel)
    requires
        wf(d),
        fits(add_level_seq(d, ls).0),
        add_level_seq(d, ls).1 is Ok,
        extends(add_level_seq(d, ls).0, f),
        wf(f),
    ensures
        add_level_seq(f, ls) == (f, add_level_seq(d, ls).1),
    decreases ls.len(),
{
    if ls.len() > 0 {
        let d1 = add_level_seq(d, ls.drop_last()).0;
        let d2 = add_level(d1, ls.last()).0;
        lemma_level_grows(d1, ls.last());
        lemma_fits_down(d1, d2);
        lemma_extends_trans(d1, d2, f);
        lemma_level_seq_wf(d, ls.drop_last());
        lemma_level_seq_settles(d, ls.drop_last(), f);
        lemma_level_settles(d1, ls.last(), f);
    }
}

/// A sequence of levels that was imported is imported for good.
pub proof fn lemma_levels_settle(d: DagModel, ls: Seq<LevelTree>, f: DagModel)
    requires
        wf(d),
        fits(add_levels(d, ls).0),
        add_levels(d, ls).1 is Ok,
        extends(add_levels(d, ls).0, f),
        wf(f),
    ensures
        add_levels(f, ls) == (f, add_levels(d, ls).1),
{
    let e = add_levels(d, ls).0;
    let d1 = add_level_seq(d, ls).0;
    let ps = add_level_seq(d, ls).1->Ok_0;
    lemma_put_levels_grows(d1, ps);
    lemma_fits_down(d1, e);
    lemma_extends_trans(d1, e, f);
    lemma_level_seq_settles(d, ls, f);
    lemma_put_levels_settled(d1, ps, f);
}

/// An expression that was imported is imported for good: importing it again,
/// into whatever the arena has grown to, adds nothing and returns the same
/// pointer.
pub proof fn lemma_expr_settles(
    d: DagModel,
    nat_ext: bool,
    str_ext: bool,
    t: ExprTree,
    f: DagModel,
)
    requires
        wf(d),
        fits(add_expr(d, nat_ext, str_ext, t).0),
        add_expr(d, nat_ext, str_ext, t).1 is Ok,
        extends(add_expr(d, nat_ext, str_ext, t).0, f),
        wf(f),
    ensures
        add_expr(f, nat_ext, str_ext, t) == (f, add_expr(d, nat_ext, str_ext, t).1),
    decreases t,
{
    let e = add_expr(d, nat_ext, str_ext, t).0;
    lemma_add_expr(d, nat_ext, str_ext, t);
    lemma_add_expr(f, nat_ext, str_ext, t);
    match t {
        ExprTree::BVar(n) => {
            if let NatTree::Small(v) = n {
                lemma_put_expr_settled(d, Expr::Var { dbj_idx: v as u16 }, f);
            }
        },
        ExprTree::Sort(l) => {
            let d1 = add_level(d, l).0;
            let level = add_level(d, l).1->Ok_0;
            lemma_put_expr_grows(d1, Expr::Sort { level });
            lemma_fits_down(d1, e);
            lemma_extends_trans(d1, e, f);
            lemma_level_settles(d, l, f);
            lemma_put_expr_settled(d1, Expr::Sort { level }, f);
        },
        ExprTree::Const(n, ls) => {
            let d1 = add_name(d, n).0;
            let name = add_name(d, n).1->Ok_0;
            let d2 = add_levels(d1, ls).0;
            let levels = add_levels(d1, ls).1->Ok_0;
            lemma_put_expr_grows(d2, Expr::Const { name, levels });
            lemma_levels_grow(d1, ls);
            lemma_fits_down(d2, e);
            lemma_fits_down(d1, d2);
            lemma_extends_trans(d2, e, f);
            lemma_extends_trans(d1, d2, f);
            lemma_name_wf(d, n);
            lemma_name_settles(d, n, f);
            lemma_levels_settle(d1, ls, f);
            lemma_put_expr_settled(d2, Expr::Const { name, levels }, f);
        },
        ExprTree::App(g, a) => {
            let d1 = add_expr(d, nat_ext, str_ext, *g).0;
            let fun = add_expr(d, nat_ext, str_ext, *g).1->Ok_0;
            let d2 = add_expr(d1, nat_ext, str_ext, *a).0;
            let arg = add_expr(d1, nat_ext, str_ext, *a).1->Ok_0;
            let x = app_node(d2, fun, arg);
            lemma_put_expr_grows(d2, x);
            lemma_expr_grows(d1, nat_ext, str_ext, *a);
            lemma_fits_down(d2, e);
            lemma_fits_down(d1, d2);
            lemma_extends_trans(d2, e, f);
            lemma_extends_trans(d1, d2, f);
            lemma_expr_wf(d, nat_ext, str_ext, *g);
            lemma_expr_wf(d1, nat_ext, str_ext, *a);
            lemma_expr_settles(d, nat_ext, str_ext, *g, f);
            lemma_expr_settles(d1, nat_ext, str_ext, *a, f);
            lemma_valid_extends(d1, d2);
            lemma_valid_extends(d2, f);
            assert(valid_expr(d2, fun) && valid_expr(d2, arg));
            assert(valid_expr(f, fun) && valid_expr(f, arg));
            assert(app_node(f, fun, arg) == x);
            lemma_put_expr_settled(d2, x, f);
        },
        ExprTree::Lambda(n, bi, ty, body) => {
            let d1 = add_name(d, n).0;
            let name = add_name(d, n).1->Ok_0;
            let d2 = add_expr(d1, nat_ext, str_ext, *ty).0;
            let p = add_expr(d1, nat_ext, str_ext, *ty).1->Ok_0;
            let d3 = add_expr(d2, nat_ext, str_ext, *body).0;
            let b = add_expr(d2, nat_ext, str_ext, *body).1->Ok_0;
            let x = binding_node(d3, false, name, style_of(bi), p, b);
            lemma_put_expr_grows(d3, x);
            lemma_expr_grows(d2, nat_ext, str_ext, *body);
            lemma_expr_grows(d1, nat_ext, str_ext, *ty);
            lemma_fits_down(d3, e);
            lemma_fits_down(d2, d3);
            lemma_fits_down(d1, d2);
            lemma_extends_trans(d3, e, f);
            lemma_extends_trans(d2, d3, f);
            lemma_extends_trans(d1, d2, f);
            lemma_name_wf(d, n);
            lemma_expr_wf(d1, nat_ext, str_ext, *ty);
            lemma_expr_wf(d2, nat_ext, str_ext, *body);
            lemma_name_settles(d, n, f);
            lemma_expr_settles(d1, nat_ext, str_ext, *ty, f);
            lemma_expr_settles(d2, nat_ext, str_ext, *body, f);
            lemma_valid_extends(d2, d3);
            lemma_valid_extends(d3, f);
            assert(valid_expr(d3, p) && valid_expr(d3, b));
            assert(valid_expr(f, p) && valid_expr(f, b));
            assert(binding_node(f, false, name, style_of(bi), p, b) == x);
            lemma_put_expr_settled(d3, x, f);
        },
        ExprTree::Pi(n, bi, ty, body) => {
            let d1 = add_name(d, n).0;
            let name = add_name(d, n).1->Ok_0;
            let d2 = add_expr(d1, nat_ext, str_ext, *ty).0;
            let p = add_expr(d1, nat_ext, str_ext, *ty).1->Ok_0;
            let d3 = add_expr(d2, nat_ext, str_ext, *body).0;
            let b = add_expr(d2, nat_ext, str_ext, *body).1->Ok_0;
            let x = binding_node(d3, true, name, style_of(bi), p, b);
            lemma_put_expr_grows(d3, x);
            lemma_expr_grows(d2, nat_ext, str_ext, *body);
            lemma_expr_grows(d1, nat_ext, str_ext, *ty);
            lemma_fits_down(d3, e);
            lemma_fits_down(d2, d3);
            lemma_fits_down(d1, d2);
            lemma_extends_trans(d3, e, f);
            lemma_extends_trans(d2, d3, f);
            lemma_extends_trans(d1, d2, f);
            lemma_name_wf(d, n);
            lemma_expr_wf(d1, nat_ext, str_ext, *ty);
            lemma_expr_wf(d2, nat_ext, str_ext, *body);
            lemma_name_settles(d, n, f);
            lemma_expr_settles(d1, nat_ext, str_ext, *ty, f);
            lemma_expr_settles(d2, nat_ext, str_ext, *body, f);
            lemma_valid_extends(d2, d3);
            lemma_valid_extends(d3, f);
            assert(valid_expr(d3, p) && valid_expr(d3, b));
            assert(valid_expr(f, p) && valid_expr(f, b));
            assert(binding_node(f, true, name, style_of(bi), p, b) == x);
            lemma_put_expr_settled(d3, x, f);
        },
        ExprTree::Let(n, ty, val, body, nondep) => {
            let d1 = add_name(d, n).0;
            let name = add_name(d, n).1->Ok_0;
            let d2 = add_expr(d1, nat_ext, str_ext, *ty).0;
            let p = add_expr(d1, nat_ext, str_ext, *ty).1->Ok_0;
            let d3 = add_expr(d2, nat_ext, str_ext, *val).0;
            let q = add_expr(d2, nat_ext, str_ext, *val).1->Ok_0;
            let d4 = add_expr(d3, nat_ext, str_ext, *body).0;
            let b = add_expr(d3, nat_ext, str_ext, *body).1->Ok_0;
            let x = let_node(d4, name, p, q, b, nondep);
            lemma_put_expr_grows(d4, x);
            lemma_expr_grows(d3, nat_ext, str_ext, *body);
            lemma_expr_grows(d2, nat_ext, str_ext, *val);
            lemma_expr_grows(d1, nat_ext, str_ext, *ty);
            lemma_fits_down(d4, e);
            lemma_fits_down(d3, d4);
            lemma_fits_down(d2, d3);
            lemma_fits_down(d1, d2);
            lemma_extends_trans(d4, e, f);
            lemma_extends_trans(d3, d4, f);
            lemma_extends_trans(d2, d3, f);
            lemma_extends_trans(d1, d2, f);
            lemma_name_wf(d, n);
            lemma_expr_wf(d1, nat_ext, str_ext, *ty);
            lemma_expr_wf(d2, nat_ext, str_ext, *val);
            lemma_expr_wf(d3, nat_ext, str_ext, *body);
            lemma_name_settles(d, n, f);
            lemma_expr_settles(d1, nat_ext, str_ext, *ty, f);
            lemma_expr_settles(d2, nat_ext, str_ext, *val, f);
            lemma_expr_settles(d3, nat_ext, str_ext, *body, f);
            lemma_valid_extends(d2, d3);
            lemma_valid_extends(d3, d4);
            lemma_valid_extends(d4, f);
            assert(valid_expr(d3, p) && valid_expr(d4, p) && valid_expr(d4, q) && valid_expr(
                d4,
                b,
            ));
            assert(valid_expr(f, p) && valid_expr(f, q) && valid_expr(f, b));
            assert(let_node(f, name, p, q, b, nondep) == x);
            lemma_put_expr_settled(d4, x, f);
        },
        ExprTree::NatLit(n) => {
            let v = limbs_of(n.value());
            let d1 = put_bignum(d, v).0;
            let ptr = put_bignum(d, v).1->Ok_0;
            lemma_put_expr_grows(d1, Expr::NatLit { ptr });
            lemma_extends_trans(d1, e, f);
            lemma_put_bignum_settled(d, v, f);
            lemma_put_expr_settled(d1, Expr::NatLit { ptr }, f);
        },
        ExprTree::StrLit(s) => {
            let (d1, ptr) = put_string(d, s);
            lemma_put_expr_grows(d1, Expr::StringLit { ptr });
            lemma_extends_trans(d1, e, f);
            lemma_put_string_settled(d, s, f);
            lemma_put_expr_settled(d1, Expr::StringLit { ptr }, f);
        },
        ExprTree::MData(x) => {
            lemma_expr_settles(d, nat_ext, str_ext, *x, f);
        },
        ExprTree::Proj(n, i, x) => {
            let d1 = add_name(d, n).0;
            let ty_name = add_name(d, n).1->Ok_0;
            if let NatTree::Small(idx) = i {
                let d2 = add_expr(d1, nat_ext, str_ext, *x).0;
                let structure = add_expr(d1, nat_ext, str_ext, *x).1->Ok_0;
                let y = proj_node(d2, ty_name, idx, structure);
                lemma_put_expr_grows(d2, y);
                lemma_expr_grows(d1, nat_ext, str_ext, *x);
                lemma_fits_down(d2, e);
                lemma_fits_down(d1, d2);
                lemma_extends_trans(d2, e, f);
                lemma_extends_trans(d1, d2, f);
                lemma_name_wf(d, n);
                lemma_expr_wf(d1, nat_ext, str_ext, *x);
                lemma_name_settles(d, n, f);
                lemma_expr_settles(d1, nat_ext, str_ext, *x, f);
                lemma_valid_extends(d2, f);
                assert(valid_expr(f, structure));
                assert(proj_node(f, ty_name, idx, structure) == y);
                lemma_put_expr_settled(d2, y, f);
            }
        },
        _ => {},
    }
}

} // verus!
