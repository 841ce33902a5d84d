//! What holds of decoding as a whole.
//!
//! What is decoded can be read back, decoding succeeds exactly where all that
//! lies in a constant can be imported, and what is collected from expressions
//! is what they mention.

use crate::arena::{
    lemma_expr_grows, lemma_expr_wf, lemma_extends_refl, lemma_extends_trans, lemma_fits_down,
    lemma_levels_grow, lemma_levels_wf, lemma_name_grows, lemma_name_wf, lemma_names_grow,
    lemma_valid_extends,
};
use crate::decode::{
    checked_here, ci_related, ci_roots, decl_roots, decoded_constant_info, decoded_cv,
    decoded_declaration, decoded_rule, decoded_rules, decoded_valued, hint_of, u16_field,
    INDUCTIVE_REC_OFFSET, RECURSOR_K_OFFSET,
};
use crate::env::{DeclarInfo, DeclarModel, RecRule, ReducibilityHint};
use crate::laws::{
    based, expr_held, expr_importable, law_expr_import_succeeds, law_expr_reads_back,
    law_expr_stays, law_held_is_imported, law_levels_read_back, law_levels_stay,
    law_name_import_succeeds, law_name_reads_back, law_name_stays, lemma_based_extends,
    lemma_expr_reads_back, lemma_keeps_bignums, lemma_level_seq_succeeds, lemma_name_reads_back,
    level_held, level_importable, levels_held, name_held, name_importable,
};
use crate::layout::{
    law_list_layout, law_object_parts, law_words_are_little_endian, lays_list, raw_byte,
    raw_field, raw_half, raw_tag,
};
use crate::lean_sys::{slot, tag_of, LeanObj};
use crate::level::Level;
use crate::memory::Bytes;
use crate::model::{
    add_expr, add_levels, add_name, add_names, extends, fits, params_of, valid_level,
    valid_levels, wf, DagModel,
};
use crate::term::{
    expr_of, is_expr, lemma_expr_parts, list_of, name_of, names_of, LevelTree, NameTree,
};
use crate::util::{ExprPtr, LevelPtr, LevelsPtr, NamePtr};
use crate::walk::{
    are_exprs, children, firsts, lemma_contains_append, lemma_step, mentions, names_in, naming,
    total, walk,
};
use vstd::prelude::*;

verus! {

// ---------------------------------------------------------------------------
// Dependencies
// ---------------------------------------------------------------------------

/// A walk takes each object once: nothing occurs twice among the first
/// occurrences, and nothing is left out.
pub proof fn law_each_object_once(s: Seq<LeanObj>)
    ensures
        firsts(s).no_duplicates(),
        forall|o: LeanObj| #[trigger] firsts(s).contains(o) <==> s.contains(o),
    decreases s.len(),
{
    if s.len() > 0 {
        let front = s.drop_last();
        let x = s.last();
        law_each_object_once(front);
        assert forall|o: LeanObj| #[trigger] firsts(s).contains(o) <==> s.contains(o) by {
            assert(s =~= front + seq![x]);
            lemma_contains_append(front, seq![x], o);
            assert(seq![x].contains(o) <==> o == x) by {
                assert(seq![x][0] == x);
            }
            if !front.contains(x) {
                assert(firsts(s) =~= firsts(front) + seq![x]);
                lemma_contains_append(firsts(front), seq![x], o);
            }
        }
        if !front.contains(x) {
            assert(!firsts(front).contains(x));
        }
    }
}

proof fn lemma_names_in(m: Bytes, os: Seq<LeanObj>, projs: bool, n: LeanObj)
    ensures
        names_in(m, os, projs).contains(n) <==> exists|o: LeanObj| #[trigger]
            os.contains(o) && naming(m, o, projs) && slot(m, o, 0) == n,
    decreases os.len(),
{
    if os.len() > 0 {
        let front = os.drop_last();
        let x = os.last();
        lemma_names_in(m, front, projs, n);
        assert(os =~= front + seq![x]);
        assert forall|o: LeanObj| #[trigger] os.contains(o) <==> front.contains(o) || o == x by {
            lemma_contains_append(front, seq![x], o);
            assert(seq![x][0] == x);
        }
        if naming(m, x, projs) {
            let y = slot(m, x, 0);
            let names = names_in(m, front, projs);
            assert(names_in(m, os, projs) =~= names + seq![y]);
            lemma_contains_append(names, seq![y], n);
            assert(seq![y][0] == y);
            assert(os.contains(x));
        }
        if front.contains(x) {
            assert(os.contains(x));
        }
        if exists|o: LeanObj| #[trigger]
            front.contains(o) && naming(m, o, projs) && slot(m, o, 0) == n {
            let o = choose|o: LeanObj| #[trigger]
                front.contains(o) && naming(m, o, projs) && slot(m, o, 0) == n;
            assert(os.contains(o));
        }
    }
}

/// Whether one of the expressions `os` names the constant `n`.
pub open spec fn any_mentions(m: Bytes, os: Seq<LeanObj>, n: NameTree, projs: bool) -> bool {
    exists|i: int| 0 <= i < os.len() && mentions(#[trigger] expr_of(m, os[i]), n, projs)
}

/// Whether the expression `o` itself names the constant `n`.
spec fn names_it(m: Bytes, o: LeanObj, n: NameTree, projs: bool) -> bool {
    naming(m, o, projs) && name_of(m, slot(m, o, 0)) == n
}

#[verifier::spinoff_prover]
proof fn lemma_mentions_node(m: Bytes, o: LeanObj, n: NameTree, projs: bool)
    requires
        is_expr(m, o),
    ensures
        mentions(expr_of(m, o), n, projs) <==> names_it(m, o, n, projs) || any_mentions(
            m,
            children(m, o),
            n,
            projs,
        ),
{
    lemma_expr_parts(m, o);
    lemma_any_short(m, children(m, o), n, projs);
}

proof fn lemma_any_short(m: Bytes, c: Seq<LeanObj>, n: NameTree, projs: bool)
    requires
        c.len() <= 3,
    ensures
        any_mentions(m, c, n, projs) <==> {
            ||| c.len() > 0 && mentions(expr_of(m, c[0]), n, projs)
            ||| c.len() > 1 && mentions(expr_of(m, c[1]), n, projs)
            ||| c.len() > 2 && mentions(expr_of(m, c[2]), n, projs)
        },
{
    if any_mentions(m, c, n, projs) {
        let i = choose|i: int| 0 <= i < c.len() && mentions(#[trigger] expr_of(m, c[i]), n, projs);
        assert(i == 0 || i == 1 || i == 2);
    }
}

proof fn lemma_any_append(m: Bytes, a: Seq<LeanObj>, b: Seq<LeanObj>, n: NameTree, projs: bool)
    ensures
        any_mentions(m, a + b, n, projs) <==> any_mentions(m, a, n, projs) || any_mentions(
            m,
            b,
            n,
            projs,
        ),
{
    let s = a + b;
    if any_mentions(m, s, n, projs) {
        let i = choose|i: int| 0 <= i < s.len() && mentions(#[trigger] expr_of(m, s[i]), n, projs);
        if i < a.len() {
            assert(mentions(expr_of(m, a[i]), n, projs));
        } else {
            assert(mentions(expr_of(m, b[i - a.len()]), n, projs));
        }
    }
    if any_mentions(m, a, n, projs) {
        let i = choose|i: int| 0 <= i < a.len() && mentions(#[trigger] expr_of(m, a[i]), n, projs);
        assert(mentions(expr_of(m, s[i]), n, projs));
    }
    if any_mentions(m, b, n, projs) {
        let i = choose|i: int| 0 <= i < b.len() && mentions(#[trigger] expr_of(m, b[i]), n, projs);
        assert(mentions(expr_of(m, s[a.len() + i]), n, projs));
    }
}

proof fn lemma_walk_mentions(m: Bytes, os: Seq<LeanObj>, n: NameTree, projs: bool)
    requires
        are_exprs(m, os),
    ensures
        any_mentions(m, os, n, projs) <==> exists|o: LeanObj| #[trigger]
            walk(m, os).contains(o) && names_it(m, o, n, projs),
    decreases total(m, os),
{
    if os.len() > 0 {
        let front = os.drop_last();
        let x = os.last();
        let next = front + children(m, x);
        lemma_step(m, os);
        lemma_walk_mentions(m, next, n, projs);
        lemma_any_append(m, front, children(m, x), n, projs);
        lemma_any_append(m, front, seq![x], n, projs);
        assert(os =~= front + seq![x]);
        lemma_mentions_node(m, x, n, projs);
        assert(any_mentions(m, seq![x], n, projs) <==> mentions(expr_of(m, x), n, projs)) by {
            assert(seq![x][0] == x);
        }
        assert forall|o: LeanObj| #[trigger] walk(m, os).contains(o) <==> o == x || walk(
            m,
            next,
        ).contains(o) by {
            lemma_contains_append(seq![x], walk(m, next), o);
            assert(seq![x][0] == x);
        }
        assert(walk(m, os).contains(x));
        if exists|o: LeanObj| #[trigger] walk(m, next).contains(o) && names_it(m, o, n, projs) {
            let o = choose|o: LeanObj| #[trigger]
                walk(m, next).contains(o) && names_it(m, o, n, projs);
            assert(walk(m, os).contains(o));
        }
    }
}

/// The names that are collected from expressions are those of the constants
/// that the expressions mention, all of them and no others.
pub proof fn law_collects_what_is_mentioned(
    m: Bytes,
    roots: Seq<LeanObj>,
    n: NameTree,
    projs: bool,
)
    requires
        are_exprs(m, roots),
    ensures
        any_mentions(m, roots, n, projs) <==> exists|o: LeanObj| #[trigger]
            names_in(m, firsts(walk(m, roots)), projs).contains(o) && name_of(m, o) == n,
{
    let all = walk(m, roots);
    let found = names_in(m, firsts(all), projs);
    lemma_walk_mentions(m, roots, n, projs);
    law_each_object_once(all);
    if any_mentions(m, roots, n, projs) {
        let o = choose|o: LeanObj| #[trigger] all.contains(o) && names_it(m, o, n, projs);
        assert(firsts(all).contains(o));
        lemma_names_in(m, firsts(all), projs, slot(m, o, 0));
        assert(found.contains(slot(m, o, 0)));
    }
    if exists|o: LeanObj| #[trigger] found.contains(o) && name_of(m, o) == n {
        let k = choose|o: LeanObj| #[trigger] found.contains(o) && name_of(m, o) == n;
        lemma_names_in(m, firsts(all), projs, k);
        let o = choose|o: LeanObj| #[trigger]
            firsts(all).contains(o) && naming(m, o, projs) && slot(m, o, 0) == k;
        assert(all.contains(o) && names_it(m, o, n, projs));
    }
}

/// What is collected for an import holds what is collected of constants.
pub proof fn law_deps_hold_consts(m: Bytes, roots: Seq<LeanObj>, o: LeanObj)
    requires
        are_exprs(m, roots),
        names_in(m, firsts(walk(m, roots)), false).contains(o),
    ensures
        names_in(m, firsts(walk(m, roots)), true).contains(o),
{
    let os = firsts(walk(m, roots));
    lemma_names_in(m, os, false, o);
    lemma_names_in(m, os, true, o);
    let x = choose|x: LeanObj| #[trigger]
        os.contains(x) && naming(m, x, false) && slot(m, x, 0) == o;
    assert(os.contains(x) && naming(m, x, true));
}

/// An axiom, a definition, a theorem and an opaque constant are checked here,
/// and nothing else is: no tagged scalar, and no object with a tag above 3.
pub proof fn law_checked_kinds(m: Bytes, decl: LeanObj)
    ensures
        checked_here(m, decl) <==> decl % 2 == 0 && raw_tag(m, decl) <= 3,
{
}

/// A declaration that is checked here is decoded, and has its roots, as the
/// constant info with the same contents.
pub proof fn law_declaration_as_constant(
    m: Bytes,
    d: DagModel,
    nat_ext: bool,
    str_ext: bool,
    decl: LeanObj,
    ci: LeanObj,
)
    requires
        raw_tag(m, decl) <= 3,
        raw_tag(m, ci) == raw_tag(m, decl),
        raw_field(m, ci, 0) == raw_field(m, decl, 0),
    ensures
        decoded_declaration(m, d, nat_ext, str_ext, decl) == decoded_constant_info(
            m,
            d,
            nat_ext,
            str_ext,
            ci,
        ),
        decl_roots(m, decl) == ci_roots(m, ci),
{
    law_object_parts(m, decl, 0, 0);
    law_object_parts(m, ci, 0, 0);
}

/// The roots of a constant info are its type, its value where it has one, and
/// the right-hand sides of all its rules, as objects and in order.
pub proof fn law_roots_are_fields(m: Bytes, ci: LeanObj, rules: Seq<LeanObj>)
    ensures
        ({
            let tag = raw_tag(m, ci);
            let v = raw_field(m, ci, 0);
            let ty = raw_field(m, raw_field(m, v, 0), 2);
            let roots = ci_roots(m, ci);
            &&& roots.len() > 0 && roots[0] == ty
            &&& 1 <= tag <= 3 ==> roots == seq![ty, raw_field(m, v, 1)]
            &&& tag == 0 || 4 <= tag <= 6 ==> roots == seq![ty]
            &&& tag == 7 && lays_list(m, raw_field(m, v, 6), rules) ==> {
                &&& roots.len() == rules.len() + 1
                &&& forall|i: int|
                    0 <= i < rules.len() ==> roots[i + 1] == raw_field(m, #[trigger] rules[i], 2)
            }
        }),
{
    let v = raw_field(m, ci, 0);
    law_object_parts(m, ci, 0, 0);
    law_object_parts(m, v, 0, 0);
    law_object_parts(m, v, 1, 0);
    law_object_parts(m, v, 6, 0);
    law_object_parts(m, raw_field(m, v, 0), 2, 0);
    let roots = ci_roots(m, ci);
    if raw_tag(m, ci) == 7 && lays_list(m, raw_field(m, v, 6), rules) {
        law_list_layout(m, raw_field(m, v, 6), rules);
        assert forall|i: int| 0 <= i < rules.len() implies roots[i + 1] == raw_field(
            m,
            #[trigger] rules[i],
            2,
        ) by {
            law_object_parts(m, rules[i], 2, 0);
        }
    }
}

/// The names that a constant is defined together with are those in its fields:
/// of an inductive type the types of its group and its constructors, of a
/// constructor its type, of a recursor the types of its group and the
/// constructors of its rules, all of them and in order.
pub proof fn law_related_are_fields(
    m: Bytes,
    ci: LeanObj,
    all: Seq<LeanObj>,
    others: Seq<LeanObj>,
)
    ensures
        ({
            let tag = raw_tag(m, ci);
            let v = raw_field(m, ci, 0);
            let related = ci_related(m, ci);
            &&& tag < 5 || tag > 7 ==> related.len() == 0
            &&& tag == 5 && lays_list(m, raw_field(m, v, 3), all) && lays_list(
                m,
                raw_field(m, v, 4),
                others,
            ) ==> related == all + others
            &&& tag == 6 ==> related == seq![raw_field(m, v, 1)]
            &&& tag == 7 && lays_list(m, raw_field(m, v, 1), all) && lays_list(
                m,
                raw_field(m, v, 6),
                others,
            ) ==> {
                &&& related.len() == all.len() + others.len()
                &&& forall|i: int| 0 <= i < all.len() ==> related[i] == #[trigger] all[i]
                &&& forall|i: int|
                    0 <= i < others.len() ==> related[all.len() + i] == raw_field(
                        m,
                        #[trigger] others[i],
                        0,
                    )
            }
        }),
{
    let v = raw_field(m, ci, 0);
    let related = ci_related(m, ci);
    law_object_parts(m, ci, 0, 0);
    law_object_parts(m, v, 1, 0);
    law_object_parts(m, v, 3, 0);
    law_object_parts(m, v, 4, 0);
    law_object_parts(m, v, 6, 0);
    if raw_tag(m, ci) == 5 && lays_list(m, raw_field(m, v, 3), all) && lays_list(
        m,
        raw_field(m, v, 4),
        others,
    ) {
        law_list_layout(m, raw_field(m, v, 3), all);
        law_list_layout(m, raw_field(m, v, 4), others);
    }
    if raw_tag(m, ci) == 7 && lays_list(m, raw_field(m, v, 1), all) && lays_list(
        m,
        raw_field(m, v, 6),
        others,
    ) {
        law_list_layout(m, raw_field(m, v, 1), all);
        law_list_layout(m, raw_field(m, v, 6), others);
        assert forall|i: int| 0 <= i < others.len() implies related[all.len() + i] == raw_field(
            m,
            #[trigger] others[i],
            0,
        ) by {
            law_object_parts(m, others[i], 0, 0);
        }
    }
}

/// Whether `d` holds, behind `p`, the level parameter with the name `t`.
pub open spec fn param_held(d: DagModel, p: LevelPtr, t: NameTree) -> bool {
    valid_level(d, p) && match d.levels[p.idx as int] {
        Level::Param(q) => name_held(d, q, t),
        _ => false,
    }
}

/// Whether `d` holds, behind `p`, one level parameter for each name of the list
/// `o`, in order.
pub open spec fn params_held(m: Bytes, d: DagModel, p: LevelsPtr, o: LeanObj) -> bool {
    let ps = d.uparams[p.idx as int];
    &&& valid_levels(d, p)
    &&& ps.len() == list_of(m, o).len()
    &&& forall|i: int|
        0 <= i < ps.len() ==> param_held(d, #[trigger] ps[i], name_of(m, list_of(m, o)[i]))
}

proof fn lemma_params_held(m: Bytes, d: DagModel, p: LevelsPtr, o: LeanObj)
    requires
        levels_held(d, p, params_of(names_of(m, o))),
    ensures
        params_held(m, d, p, o),
{
    let ps = d.uparams[p.idx as int];
    let ls = params_of(names_of(m, o));
    assert forall|i: int| 0 <= i < ps.len() implies param_held(
        d,
        #[trigger] ps[i],
        name_of(m, list_of(m, o)[i]),
    ) by {
        assert(level_held(d, ps[i], ls[i]));
        assert(ls[i] == LevelTree::Param(name_of(m, list_of(m, o)[i])));
    }
}

/// What is imported of level parameters can be read back: one parameter for
/// each name of the list, in the order of the list, however long it is.
pub proof fn law_params_read_back(m: Bytes, d: DagModel, o: LeanObj)
    requires
        wf(d),
        fits(add_levels(d, params_of(names_of(m, o))).0),
        add_levels(d, params_of(names_of(m, o))).1 is Ok,
    ensures
        params_held(
            m,
            add_levels(d, params_of(names_of(m, o))).0,
            add_levels(d, params_of(names_of(m, o))).1->Ok_0,
            o,
        ),
{
    let (e, r) = add_levels(d, params_of(names_of(m, o)));
    law_levels_read_back(d, params_of(names_of(m, o)));
    lemma_params_held(m, e, r->Ok_0, o);
}

proof fn lemma_params_stay(m: Bytes, d: DagModel, e: DagModel, p: LevelsPtr, o: LeanObj)
    requires
        extends(d, e),
        params_held(m, d, p, o),
    ensures
        params_held(m, e, p, o),
{
    lemma_valid_extends(d, e);
    assert(valid_levels(e, p));
    let ps = d.uparams[p.idx as int];
    assert forall|i: int| 0 <= i < ps.len() implies param_held(
        e,
        #[trigger] ps[i],
        name_of(m, list_of(m, o)[i]),
    ) by {
        assert(param_held(d, ps[i], name_of(m, list_of(m, o)[i])));
        assert(valid_level(e, ps[i]));
        if let Level::Param(q) = d.levels[ps[i].idx as int] {
            law_name_stays(d, e, q, name_of(m, list_of(m, o)[i]));
        }
    }
}

/// Whether `d` holds, behind the pointers of `info`, the name, the level
/// parameters and the type in `o`.
pub open spec fn info_held(m: Bytes, d: DagModel, info: DeclarInfo, o: LeanObj) -> bool {
    &&& name_held(d, info.name, name_of(m, slot(m, o, 0)))
    &&& params_held(m, d, info.uparams, slot(m, o, 1))
    &&& expr_held(d, info.ty, expr_of(m, slot(m, o, 2)))
}

/// What is decoded of a constant can be read back: its name, its level
/// parameters, one level each, and its type.
pub proof fn law_info_reads_back(
    m: Bytes,
    d: DagModel,
    nat_ext: bool,
    str_ext: bool,
    o: LeanObj,
)
    requires
        wf(d),
        fits(decoded_cv(m, d, nat_ext, str_ext, o).0),
        decoded_cv(m, d, nat_ext, str_ext, o).1 is Ok,
    ensures
        extends(d, decoded_cv(m, d, nat_ext, str_ext, o).0),
        wf(decoded_cv(m, d, nat_ext, str_ext, o).0),
        info_held(
            m,
            decoded_cv(m, d, nat_ext, str_ext, o).0,
            decoded_cv(m, d, nat_ext, str_ext, o).1->Ok_0,
            o,
        ),
{
    let name = name_of(m, slot(m, o, 0));
    let params = params_of(names_of(m, slot(m, o, 1)));
    let ty = expr_of(m, slot(m, o, 2));
    let (d1, r1) = add_name(d, name);
    let (d2, r2) = add_levels(d1, params);
    let (d3, r3) = add_expr(d2, nat_ext, str_ext, ty);
    lemma_name_grows(d, name);
    lemma_levels_grow(d1, params);
    lemma_expr_grows(d2, nat_ext, str_ext, ty);
    lemma_extends_trans(d1, d2, d3);
    lemma_extends_trans(d, d1, d3);
    lemma_fits_down(d2, d3);
    lemma_fits_down(d1, d3);
    lemma_name_wf(d, name);
    lemma_levels_wf(d1, params);
    lemma_expr_wf(d2, nat_ext, str_ext, ty);
    law_name_reads_back(d, name);
    law_levels_read_back(d1, params);
    law_expr_reads_back(d2, nat_ext, str_ext, ty);
    law_name_stays(d1, d3, r1->Ok_0, name);
    law_levels_stay(d2, d3, r2->Ok_0, params);
    lemma_params_held(m, d3, r2->Ok_0, slot(m, o, 1));
}

/// What is decoded of a constant with a value can be read back, the value too.
pub proof fn law_value_reads_back(
    m: Bytes,
    d: DagModel,
    nat_ext: bool,
    str_ext: bool,
    v: LeanObj,
)
    requires
        wf(d),
        fits(decoded_valued(m, d, nat_ext, str_ext, v).0),
        decoded_valued(m, d, nat_ext, str_ext, v).1 is Ok,
    ensures
        ({
            let (e, r) = decoded_valued(m, d, nat_ext, str_ext, v);
            let (info, val) = r->Ok_0;
            &&& extends(d, e)
            &&& wf(e)
            &&& info_held(m, e, info, slot(m, v, 0))
            &&& expr_held(e, val, expr_of(m, slot(m, v, 1)))
        }),
{
    let o = slot(m, v, 0);
    let val = expr_of(m, slot(m, v, 1));
    let (d1, r1) = decoded_cv(m, d, nat_ext, str_ext, o);
    let (d2, r2) = add_expr(d1, nat_ext, str_ext, val);
    let info = r1->Ok_0;
    lemma_expr_grows(d1, nat_ext, str_ext, val);
    lemma_fits_down(d1, d2);
    law_info_reads_back(m, d, nat_ext, str_ext, o);
    lemma_extends_trans(d, d1, d2);
    lemma_expr_wf(d1, nat_ext, str_ext, val);
    law_expr_reads_back(d1, nat_ext, str_ext, val);
    law_name_stays(d1, d2, info.name, name_of(m, slot(m, o, 0)));
    lemma_params_stay(m, d1, d2, info.uparams, slot(m, o, 1));
    law_expr_stays(d1, d2, info.ty, expr_of(m, slot(m, o, 2)));
}

/// Whether `d` holds the names `ns` behind `ps`, one by one.
pub open spec fn names_held(d: DagModel, ps: Seq<NamePtr>, ns: Seq<NameTree>) -> bool {
    &&& ps.len() == ns.len()
    &&& forall|i: int| 0 <= i < ns.len() ==> name_held(d, #[trigger] ps[i], ns[i])
}

proof fn lemma_names_stay(d: DagModel, e: DagModel, ps: Seq<NamePtr>, ns: Seq<NameTree>)
    requires
        extends(d, e),
        names_held(d, ps, ns),
    ensures
        names_held(e, ps, ns),
{
    assert forall|i: int| 0 <= i < ns.len() implies name_held(e, #[trigger] ps[i], ns[i]) by {
        law_name_stays(d, e, ps[i], ns[i]);
    }
}

proof fn lemma_names_read_back(d: DagModel, ns: Seq<NameTree>)
    requires
        based(d),
        fits(add_names(d, ns).0),
        add_names(d, ns).1 is Ok,
    ensures
        names_held(add_names(d, ns).0, add_names(d, ns).1->Ok_0, ns),
    decreases ns.len(),
{
    if ns.len() > 0 {
        let front = ns.drop_last();
        let e = add_names(d, ns).0;
        let (d1, r1) = add_names(d, front);
        lemma_names_grow(d, front);
        lemma_name_grows(d1, ns.last());
        lemma_fits_down(d1, e);
        lemma_based_extends(d, d1);
        lemma_names_read_back(d, front);
        lemma_name_reads_back(d1, ns.last());
        lemma_names_stay(d1, e, r1->Ok_0, front);
        let ps = add_names(d, ns).1->Ok_0;
        assert forall|i: int| 0 <= i < ns.len() implies name_held(e, #[trigger] ps[i], ns[i]) by {
            if i < front.len() {
                assert(name_held(e, r1->Ok_0[i], front[i]));
            }
        }
    }
}

/// Whether `d` holds, behind `ps`, the names of the list `o`, in order.
pub open spec fn listed(m: Bytes, d: DagModel, ps: Seq<NamePtr>, o: LeanObj) -> bool {
    &&& ps.len() == list_of(m, o).len()
    &&& forall|i: int|
        0 <= i < ps.len() ==> name_held(d, #[trigger] ps[i], name_of(m, list_of(m, o)[i]))
}

proof fn lemma_listed(m: Bytes, d: DagModel, ps: Seq<NamePtr>, o: LeanObj)
    requires
        names_held(d, ps, names_of(m, o)),
    ensures
        listed(m, d, ps, o),
{
    assert forall|i: int| 0 <= i < ps.len() implies name_held(
        d,
        #[trigger] ps[i],
        name_of(m, list_of(m, o)[i]),
    ) by {
        assert(name_held(d, ps[i], names_of(m, o)[i]));
    }
}

/// Whether the word `o` is the small number `n`.
pub open spec fn counts(o: LeanObj, n: u16) -> bool {
    o == 2 * n + 1
}

/// Whether the word `o` is a number that fits in a `u16`.
pub open spec fn is_count(o: LeanObj) -> bool {
    o % 2 == 1 && o / 2 <= 65535
}

/// A small number is read as the number in the field, and only a number that
/// fits is taken.
pub proof fn law_small_field(m: Bytes, o: LeanObj, i: int)
    ensures
        u16_field(m, o, i) is Ok <==> is_count(raw_field(m, o, i)),
        u16_field(m, o, i) matches Ok(n) ==> raw_field(m, o, i) == 2 * n + 1,
        slot(m, o, i) == raw_field(m, o, i),
{
    law_object_parts(m, o, i, 0);
}

/// Whether the reducibility hint at `o` is `hint`: the scalar zero is opaque,
/// any other scalar an abbreviation, and an object is regular, with the height
/// that it stores or the largest one.
pub open spec fn hints(m: Bytes, o: LeanObj, hint: ReducibilityHint) -> bool {
    match hint {
        ReducibilityHint::Opaque => o == 1,
        ReducibilityHint::Abbrev => o % 2 == 1 && o != 1,
        ReducibilityHint::Regular(k) => {
            let height = raw_half(m, o + 8);
            &&& o % 2 == 0
            &&& height <= 65535 ==> k == height
            &&& height > 65535 ==> k == 65535
        },
    }
}

/// A reducibility hint is read as the one that it is: of a regular one the
/// height is the stored one, or the largest where that does not fit.
pub proof fn law_hint(m: Bytes, o: LeanObj)
    ensures
        hints(m, o, hint_of(m, o)),
{
    law_words_are_little_endian(m, o + 8);
}

/// Whether `r` is, in `d`, the rule `o` of a recursor.
pub open spec fn rule_held(m: Bytes, d: DagModel, r: RecRule, o: LeanObj) -> bool {
    &&& name_held(d, r.ctor_name, name_of(m, slot(m, o, 0)))
    &&& counts(slot(m, o, 1), r.ctor_telescope_size_wo_params)
    &&& expr_held(d, r.val, expr_of(m, slot(m, o, 2)))
}

/// Whether `rs` are, in `d`, the rules `os` of a recursor, one by one.
pub open spec fn rules_held(m: Bytes, d: DagModel, rs: Seq<RecRule>, os: Seq<LeanObj>) -> bool {
    &&& rs.len() == os.len()
    &&& forall|i: int| 0 <= i < os.len() ==> rule_held(m, d, #[trigger] rs[i], os[i])
}

proof fn lemma_rule_grows(m: Bytes, d: DagModel, nat_ext: bool, str_ext: bool, o: LeanObj)
    ensures
        extends(d, decoded_rule(m, d, nat_ext, str_ext, o).0),
{
    let n = name_of(m, slot(m, o, 0));
    let t = expr_of(m, slot(m, o, 2));
    let d1 = add_name(d, n).0;
    let d2 = add_expr(d1, nat_ext, str_ext, t).0;
    lemma_name_grows(d, n);
    lemma_expr_grows(d1, nat_ext, str_ext, t);
    lemma_extends_trans(d, d1, d2);
}

proof fn lemma_rules_grow(
    m: Bytes,
    d: DagModel,
    nat_ext: bool,
    str_ext: bool,
    os: Seq<LeanObj>,
)
    ensures
        extends(d, decoded_rules(m, d, nat_ext, str_ext, os).0),
    decreases os.len(),
{
    if os.len() == 0 {
        lemma_extends_refl(d);
    } else {
        let d1 = decoded_rules(m, d, nat_ext, str_ext, os.drop_last()).0;
        let d2 = decoded_rule(m, d1, nat_ext, str_ext, os.last()).0;
        lemma_rules_grow(m, d, nat_ext, str_ext, os.drop_last());
        lemma_rule_grows(m, d1, nat_ext, str_ext, os.last());
        lemma_extends_trans(d, d1, d2);
    }
}

proof fn lemma_rule_reads_back(m: Bytes, d: DagModel, nat_ext: bool, str_ext: bool, o: LeanObj)
    requires
        based(d),
        fits(decoded_rule(m, d, nat_ext, str_ext, o).0),
        decoded_rule(m, d, nat_ext, str_ext, o).1 is Ok,
    ensures
        rule_held(
            m,
            decoded_rule(m, d, nat_ext, str_ext, o).0,
            decoded_rule(m, d, nat_ext, str_ext, o).1->Ok_0,
            o,
        ),
{
    let n = name_of(m, slot(m, o, 0));
    let t = expr_of(m, slot(m, o, 2));
    let (d1, r1) = add_name(d, n);
    let (d2, r2) = add_expr(d1, nat_ext, str_ext, t);
    lemma_name_grows(d, n);
    lemma_expr_grows(d1, nat_ext, str_ext, t);
    lemma_fits_down(d1, d2);
    lemma_based_extends(d, d1);
    lemma_name_reads_back(d, n);
    lemma_expr_reads_back(d1, nat_ext, str_ext, t);
    law_name_stays(d1, d2, r1->Ok_0, n);
    law_small_field(m, o, 1);
}

proof fn lemma_rules_stay(
    m: Bytes,
    d: DagModel,
    e: DagModel,
    rs: Seq<RecRule>,
    os: Seq<LeanObj>,
)
    requires
        extends(d, e),
        rules_held(m, d, rs, os),
    ensures
        rules_held(m, e, rs, os),
{
    assert forall|i: int| 0 <= i < os.len() implies rule_held(
        m,
        e,
        #[trigger] rs[i],
        os[i],
    ) by {
        law_name_stays(d, e, rs[i].ctor_name, name_of(m, slot(m, os[i], 0)));
        law_expr_stays(d, e, rs[i].val, expr_of(m, slot(m, os[i], 2)));
    }
}

#[verifier::spinoff_prover]
proof fn lemma_rules_read_back(
    m: Bytes,
    d: DagModel,
    nat_ext: bool,
    str_ext: bool,
    os: Seq<LeanObj>,
)
    requires
        based(d),
        fits(decoded_rules(m, d, nat_ext, str_ext, os).0),
        decoded_rules(m, d, nat_ext, str_ext, os).1 is Ok,
    ensures
        rules_held(
            m,
            decoded_rules(m, d, nat_ext, str_ext, os).0,
            decoded_rules(m, d, nat_ext, str_ext, os).1->Ok_0,
            os,
        ),
    decreases os.len(),
{
    if os.len() > 0 {
        let front = os.drop_last();
        let o = os.last();
        let (e, r) = decoded_rules(m, d, nat_ext, str_ext, os);
        let (d1, r1) = decoded_rules(m, d, nat_ext, str_ext, front);
        lemma_rules_grow(m, d, nat_ext, str_ext, front);
        lemma_rule_grows(m, d1, nat_ext, str_ext, o);
        lemma_fits_down(d1, e);
        lemma_based_extends(d, d1);
        lemma_rules_read_back(m, d, nat_ext, str_ext, front);
        lemma_rule_reads_back(m, d1, nat_ext, str_ext, o);
        lemma_rules_stay(m, d1, e, r1->Ok_0, front);
        let rs = r->Ok_0;
        assert(rs == r1->Ok_0.push(decoded_rule(m, d1, nat_ext, str_ext, o).1->Ok_0));
        assert forall|i: int| 0 <= i < os.len() implies rule_held(
            m,
            e,
            #[trigger] rs[i],
            os[i],
        ) by {
            if i < front.len() {
                assert(rule_held(m, e, r1->Ok_0[i], front[i]));
            }
        }
    }
}

proof fn lemma_info_stays(m: Bytes, d: DagModel, e: DagModel, info: DeclarInfo, o: LeanObj)
    requires
        extends(d, e),
        info_held(m, d, info, o),
    ensures
        info_held(m, e, info, o),
{
    law_name_stays(d, e, info.name, name_of(m, slot(m, o, 0)));
    lemma_params_stay(m, d, e, info.uparams, slot(m, o, 1));
    law_expr_stays(d, e, info.ty, expr_of(m, slot(m, o, 2)));
}

/// Whether `x` is, in `d`, the constant info `ci`: all that `x` says or points
/// at is what lies in the fields of `ci`.
pub open spec fn constant_held(m: Bytes, d: DagModel, x: DeclarModel, ci: LeanObj) -> bool {
    let tag = tag_of(m, ci);
    let v = slot(m, ci, 0);
    let cv = slot(m, v, 0);
    match x {
        DeclarModel::Axiom { info } => tag == 0 && info_held(m, d, info, cv),
        DeclarModel::Definition { info, val, hint } => {
            &&& tag == 1
            &&& info_held(m, d, info, cv)
            &&& expr_held(d, val, expr_of(m, slot(m, v, 1)))
            &&& hints(m, slot(m, v, 2), hint)
        },
        DeclarModel::Theorem { info, val } => {
            &&& tag == 2
            &&& info_held(m, d, info, cv)
            &&& expr_held(d, val, expr_of(m, slot(m, v, 1)))
        },
        DeclarModel::Opaque { info, val } => {
            &&& tag == 3
            &&& info_held(m, d, info, cv)
            &&& expr_held(d, val, expr_of(m, slot(m, v, 1)))
        },
        DeclarModel::Quot { info } => tag == 4 && info_held(m, d, info, cv),
        DeclarModel::Inductive {
            info,
            is_recursive,
            is_nested,
            num_params,
            num_indices,
            all_ind_names,
            all_ctor_names,
        } => {
            &&& tag == 5
            &&& info_held(m, d, info, cv)
            &&& counts(slot(m, v, 1), num_params)
            &&& counts(slot(m, v, 2), num_indices)
            &&& listed(m, d, all_ind_names, slot(m, v, 3))
            &&& listed(m, d, all_ctor_names, slot(m, v, 4))
            &&& is_nested == (slot(m, v, 5) != 1)
            &&& is_recursive == (raw_byte(m, v + 56) != 0)
        },
        DeclarModel::Constructor(c) => {
            &&& tag == 6
            &&& info_held(m, d, c.info, cv)
            &&& name_held(d, c.inductive_name, name_of(m, slot(m, v, 1)))
            &&& counts(slot(m, v, 2), c.ctor_idx)
            &&& counts(slot(m, v, 3), c.num_params)
            &&& counts(slot(m, v, 4), c.num_fields)
        },
        DeclarModel::Recursor {
            info,
            all_inductives,
            num_params,
            num_indices,
            num_motives,
            num_minors,
            rec_rules,
            is_k,
        } => {
            &&& tag == 7
            &&& info_held(m, d, info, cv)
            &&& listed(m, d, all_inductives, slot(m, v, 1))
            &&& counts(slot(m, v, 2), num_params)
            &&& counts(slot(m, v, 3), num_indices)
            &&& counts(slot(m, v, 4), num_motives)
            &&& counts(slot(m, v, 5), num_minors)
            &&& rules_held(m, d, rec_rules, list_of(m, slot(m, v, 6)))
            &&& is_k == (raw_byte(m, v + 64) != 0)
        },
    }
}

proof fn lemma_inductive_reads_back(
    m: Bytes,
    d: DagModel,
    nat_ext: bool,
    str_ext: bool,
    ci: LeanObj,
)
    requires
        wf(d),
        tag_of(m, ci) == 5,
        fits(decoded_constant_info(m, d, nat_ext, str_ext, ci).0),
        decoded_constant_info(m, d, nat_ext, str_ext, ci).1 is Ok,
    ensures
        constant_held(
            m,
            decoded_constant_info(m, d, nat_ext, str_ext, ci).0,
            decoded_constant_info(m, d, nat_ext, str_ext, ci).1->Ok_0,
            ci,
        ),
{
    let v = slot(m, ci, 0);
    let cv = slot(m, v, 0);
    let e = decoded_constant_info(m, d, nat_ext, str_ext, ci).0;
    let (d1, r1) = decoded_cv(m, d, nat_ext, str_ext, cv);
    law_small_field(m, v, 1);
    law_small_field(m, v, 2);
    law_object_parts(m, v, 0, INDUCTIVE_REC_OFFSET as int);
    let inds = names_of(m, slot(m, v, 3));
    let ctors = names_of(m, slot(m, v, 4));
    let (d2, r2) = add_names(d1, inds);
    lemma_names_grow(d1, inds);
    lemma_names_grow(d2, ctors);
    lemma_extends_trans(d1, d2, e);
    lemma_fits_down(d1, e);
    lemma_fits_down(d2, e);
    law_info_reads_back(m, d, nat_ext, str_ext, cv);
    lemma_wf_based(d1);
    lemma_based_extends(d1, d2);
    lemma_info_stays(m, d1, e, r1->Ok_0, cv);
    lemma_names_read_back(d1, inds);
    lemma_names_read_back(d2, ctors);
    lemma_names_stay(d2, e, r2->Ok_0, inds);
    lemma_listed(m, e, r2->Ok_0, slot(m, v, 3));
    lemma_listed(m, e, add_names(d2, ctors).1->Ok_0, slot(m, v, 4));
}

proof fn lemma_ctor_reads_back(m: Bytes, d: DagModel, nat_ext: bool, str_ext: bool, ci: LeanObj)
    requires
        wf(d),
        tag_of(m, ci) == 6,
        fits(decoded_constant_info(m, d, nat_ext, str_ext, ci).0),
        decoded_constant_info(m, d, nat_ext, str_ext, ci).1 is Ok,
    ensures
        constant_held(
            m,
            decoded_constant_info(m, d, nat_ext, str_ext, ci).0,
            decoded_constant_info(m, d, nat_ext, str_ext, ci).1->Ok_0,
            ci,
        ),
{
    let v = slot(m, ci, 0);
    let cv = slot(m, v, 0);
    let e = decoded_constant_info(m, d, nat_ext, str_ext, ci).0;
    let (d1, r1) = decoded_cv(m, d, nat_ext, str_ext, cv);
    law_small_field(m, v, 2);
    law_small_field(m, v, 3);
    law_small_field(m, v, 4);
    let ind = name_of(m, slot(m, v, 1));
    lemma_name_grows(d1, ind);
    lemma_fits_down(d1, e);
    law_info_reads_back(m, d, nat_ext, str_ext, cv);
    lemma_wf_based(d1);
    lemma_info_stays(m, d1, e, r1->Ok_0, cv);
    lemma_name_reads_back(d1, ind);
}

proof fn lemma_recursor_reads_back(m: Bytes, d: DagModel, nat_ext: bool, str_ext: bool, ci: LeanObj)
    requires
        wf(d),
        tag_of(m, ci) == 7,
        fits(decoded_constant_info(m, d, nat_ext, str_ext, ci).0),
        decoded_constant_info(m, d, nat_ext, str_ext, ci).1 is Ok,
    ensures
        constant_held(
            m,
            decoded_constant_info(m, d, nat_ext, str_ext, ci).0,
            decoded_constant_info(m, d, nat_ext, str_ext, ci).1->Ok_0,
            ci,
        ),
{
    let v = slot(m, ci, 0);
    let cv = slot(m, v, 0);
    let e = decoded_constant_info(m, d, nat_ext, str_ext, ci).0;
    let (d1, r1) = decoded_cv(m, d, nat_ext, str_ext, cv);
    law_small_field(m, v, 2);
    law_small_field(m, v, 3);
    law_small_field(m, v, 4);
    law_small_field(m, v, 5);
    law_object_parts(m, v, 0, RECURSOR_K_OFFSET as int);
    let inds = names_of(m, slot(m, v, 1));
    let rules = list_of(m, slot(m, v, 6));
    let (d2, r2) = add_names(d1, inds);
    lemma_names_grow(d1, inds);
    lemma_rules_grow(m, d2, nat_ext, str_ext, rules);
    lemma_extends_trans(d1, d2, e);
    lemma_fits_down(d1, e);
    lemma_fits_down(d2, e);
    law_info_reads_back(m, d, nat_ext, str_ext, cv);
    lemma_wf_based(d1);
    lemma_based_extends(d1, d2);
    lemma_info_stays(m, d1, e, r1->Ok_0, cv);
    lemma_names_read_back(d1, inds);
    lemma_names_stay(d2, e, r2->Ok_0, inds);
    lemma_listed(m, e, r2->Ok_0, slot(m, v, 1));
    lemma_rules_read_back(m, d2, nat_ext, str_ext, rules);
}

/// What is decoded of a constant info can be read back, whatever its kind.
pub proof fn law_constant_reads_back(
    m: Bytes,
    d: DagModel,
    nat_ext: bool,
    str_ext: bool,
    ci: LeanObj,
)
    requires
        wf(d),
        fits(decoded_constant_info(m, d, nat_ext, str_ext, ci).0),
        decoded_constant_info(m, d, nat_ext, str_ext, ci).1 is Ok,
    ensures
        constant_held(
            m,
            decoded_constant_info(m, d, nat_ext, str_ext, ci).0,
            decoded_constant_info(m, d, nat_ext, str_ext, ci).1->Ok_0,
            ci,
        ),
{
    let tag = tag_of(m, ci);
    let v = slot(m, ci, 0);
    if tag == 0 || tag == 4 {
        law_info_reads_back(m, d, nat_ext, str_ext, slot(m, v, 0));
    } else if tag == 1 || tag == 2 || tag == 3 {
        law_hint(m, slot(m, v, 2));
        law_value_reads_back(m, d, nat_ext, str_ext, v);
    } else if tag == 5 {
        lemma_inductive_reads_back(m, d, nat_ext, str_ext, ci);
    } else if tag == 6 {
        lemma_ctor_reads_back(m, d, nat_ext, str_ext, ci);
    } else if tag == 7 {
        lemma_recursor_reads_back(m, d, nat_ext, str_ext, ci);
    }
}

proof fn lemma_wf_based(d: DagModel)
    requires
        wf(d),
    ensures
        based(d),
{
    reveal(wf);
}

// ---------------------------------------------------------------------------
// What can be decoded
// ---------------------------------------------------------------------------

/// Whether all of the names `ns` can be imported.
pub open spec fn names_importable(ns: Seq<NameTree>) -> bool {
    forall|i: int| 0 <= i < ns.len() ==> name_importable(#[trigger] ns[i])
}

/// Whether the name, the level parameters and the type in `o` can be imported.
pub open spec fn info_decodable(
    m: Bytes,
    o: LeanObj,
    nat_ext: bool,
    str_ext: bool,
    bignums: bool,
) -> bool {
    &&& name_importable(name_of(m, slot(m, o, 0)))
    &&& names_importable(names_of(m, slot(m, o, 1)))
    &&& expr_importable(expr_of(m, slot(m, o, 2)), nat_ext, str_ext, bignums)
}

/// Whether the rule `o` of a recursor can be decoded.
pub open spec fn rule_decodable(
    m: Bytes,
    o: LeanObj,
    nat_ext: bool,
    str_ext: bool,
    bignums: bool,
) -> bool {
    &&& name_importable(name_of(m, slot(m, o, 0)))
    &&& is_count(slot(m, o, 1))
    &&& expr_importable(expr_of(m, slot(m, o, 2)), nat_ext, str_ext, bignums)
}

/// Whether the constant info `ci` can be decoded: its kind is known, its
/// numbers fit in a `u16`, and what lies in it can be imported.
pub open spec fn constant_decodable(
    m: Bytes,
    ci: LeanObj,
    nat_ext: bool,
    str_ext: bool,
    bignums: bool,
) -> bool {
    let tag = tag_of(m, ci);
    let v = slot(m, ci, 0);
    &&& tag <= 7
    &&& info_decodable(m, slot(m, v, 0), nat_ext, str_ext, bignums)
    &&& tag == 1 || tag == 2 || tag == 3 ==> expr_importable(
        expr_of(m, slot(m, v, 1)),
        nat_ext,
        str_ext,
        bignums,
    )
    &&& tag == 5 ==> {
        &&& is_count(slot(m, v, 1))
        &&& is_count(slot(m, v, 2))
        &&& names_importable(names_of(m, slot(m, v, 3)))
        &&& names_importable(names_of(m, slot(m, v, 4)))
    }
    &&& tag == 6 ==> {
        &&& name_importable(name_of(m, slot(m, v, 1)))
        &&& is_count(slot(m, v, 2))
        &&& is_count(slot(m, v, 3))
        &&& is_count(slot(m, v, 4))
    }
    &&& tag == 7 ==> {
        &&& names_importable(names_of(m, slot(m, v, 1)))
        &&& is_count(slot(m, v, 2))
        &&& is_count(slot(m, v, 3))
        &&& is_count(slot(m, v, 4))
        &&& is_count(slot(m, v, 5))
        &&& forall|i: int|
            0 <= i < list_of(m, slot(m, v, 6)).len() ==> rule_decodable(
                m,
                #[trigger] list_of(m, slot(m, v, 6))[i],
                nat_ext,
                str_ext,
                bignums,
            )
    }
}

proof fn lemma_names_succeed(d: DagModel, ns: Seq<NameTree>)
    ensures
        add_names(d, ns).1 is Ok <==> names_importable(ns),
        add_names(d, ns).0.bignums is Some <==> d.bignums is Some,
    decreases ns.len(),
{
    lemma_names_grow(d, ns);
    lemma_keeps_bignums(d, add_names(d, ns).0);
    if ns.len() > 0 {
        let front = ns.drop_last();
        lemma_names_succeed(d, front);
        law_name_import_succeeds(add_names(d, front).0, ns.last());
        if add_names(d, ns).1 is Ok {
            assert forall|i: int| 0 <= i < ns.len() implies name_importable(#[trigger] ns[i]) by {
                if i < front.len() {
                    assert(name_importable(front[i]));
                }
            }
        } else if names_importable(ns) {
            assert(name_importable(ns[ns.len() - 1]));
            assert forall|i: int| 0 <= i < front.len() implies name_importable(
                #[trigger] front[i],
            ) by {
                assert(name_importable(ns[i]));
            }
        }
    }
}

proof fn lemma_params_succeed(d: DagModel, ns: Seq<NameTree>)
    ensures
        add_levels(d, params_of(ns)).1 is Ok <==> names_importable(ns),
        add_levels(d, params_of(ns)).0.bignums is Some <==> d.bignums is Some,
{
    let ls = params_of(ns);
    lemma_levels_grow(d, ls);
    lemma_keeps_bignums(d, add_levels(d, ls).0);
    lemma_level_seq_succeeds(d, ls);
    assert forall|i: int| 0 <= i < ns.len() implies level_importable(#[trigger] ls[i])
        == name_importable(ns[i]) by {}
    if add_levels(d, ls).1 is Ok {
        assert forall|i: int| 0 <= i < ns.len() implies name_importable(#[trigger] ns[i]) by {
            assert(level_importable(ls[i]));
        }
    }
    if names_importable(ns) {
        assert forall|i: int| 0 <= i < ls.len() implies level_importable(#[trigger] ls[i]) by {
            assert(name_importable(ns[i]));
        }
    }
}

proof fn lemma_info_succeeds(m: Bytes, d: DagModel, nat_ext: bool, str_ext: bool, o: LeanObj)
    ensures
        decoded_cv(m, d, nat_ext, str_ext, o).1 is Ok <==> info_decodable(
            m,
            o,
            nat_ext,
            str_ext,
            d.bignums is Some,
        ),
        decoded_cv(m, d, nat_ext, str_ext, o).0.bignums is Some <==> d.bignums is Some,
{
    let name = name_of(m, slot(m, o, 0));
    let names = names_of(m, slot(m, o, 1));
    let ty = expr_of(m, slot(m, o, 2));
    let d1 = add_name(d, name).0;
    let d2 = add_levels(d1, params_of(names)).0;
    law_name_import_succeeds(d, name);
    lemma_name_grows(d, name);
    lemma_keeps_bignums(d, d1);
    lemma_params_succeed(d1, names);
    law_expr_import_succeeds(d2, nat_ext, str_ext, ty);
    lemma_expr_grows(d2, nat_ext, str_ext, ty);
    lemma_keeps_bignums(d2, add_expr(d2, nat_ext, str_ext, ty).0);
}

proof fn lemma_rule_succeeds(m: Bytes, d: DagModel, nat_ext: bool, str_ext: bool, o: LeanObj)
    ensures
        decoded_rule(m, d, nat_ext, str_ext, o).1 is Ok <==> rule_decodable(
            m,
            o,
            nat_ext,
            str_ext,
            d.bignums is Some,
        ),
{
    let name = name_of(m, slot(m, o, 0));
    let d1 = add_name(d, name).0;
    law_name_import_succeeds(d, name);
    lemma_name_grows(d, name);
    lemma_keeps_bignums(d, d1);
    law_expr_import_succeeds(d1, nat_ext, str_ext, expr_of(m, slot(m, o, 2)));
    law_small_field(m, o, 1);
}

proof fn lemma_rules_succeed(
    m: Bytes,
    d: DagModel,
    nat_ext: bool,
    str_ext: bool,
    os: Seq<LeanObj>,
)
    ensures
        decoded_rules(m, d, nat_ext, str_ext, os).1 is Ok <==> forall|i: int|
            0 <= i < os.len() ==> rule_decodable(
                m,
                #[trigger] os[i],
                nat_ext,
                str_ext,
                d.bignums is Some,
            ),
    decreases os.len(),
{
    if os.len() > 0 {
        let front = os.drop_last();
        let d1 = decoded_rules(m, d, nat_ext, str_ext, front).0;
        let big = d.bignums is Some;
        lemma_rules_succeed(m, d, nat_ext, str_ext, front);
        lemma_rules_grow(m, d, nat_ext, str_ext, front);
        lemma_keeps_bignums(d, d1);
        lemma_rule_succeeds(m, d1, nat_ext, str_ext, os.last());
        if decoded_rules(m, d, nat_ext, str_ext, os).1 is Ok {
            assert forall|i: int| 0 <= i < os.len() implies rule_decodable(
                m,
                #[trigger] os[i],
                nat_ext,
                str_ext,
                big,
            ) by {
                if i < front.len() {
                    assert(rule_decodable(m, front[i], nat_ext, str_ext, big));
                }
            }
        } else if forall|i: int|
            0 <= i < os.len() ==> rule_decodable(m, #[trigger] os[i], nat_ext, str_ext, big) {
            assert(rule_decodable(m, os[os.len() - 1], nat_ext, str_ext, big));
            assert forall|i: int| 0 <= i < front.len() implies rule_decodable(
                m,
                #[trigger] front[i],
                nat_ext,
                str_ext,
                big,
            ) by {
                assert(rule_decodable(m, os[i], nat_ext, str_ext, big));
            }
        }
    }
}

/// A constant info is decoded exactly where it can be: what decides is what
/// lies in it, the settings, and whether the arena keeps big natural numbers.
pub proof fn law_decoding_succeeds(
    m: Bytes,
    d: DagModel,
    nat_ext: bool,
    str_ext: bool,
    ci: LeanObj,
)
    ensures
        decoded_constant_info(m, d, nat_ext, str_ext, ci).1 is Ok <==> constant_decodable(
            m,
            ci,
            nat_ext,
            str_ext,
            d.bignums is Some,
        ),
{
    let tag = tag_of(m, ci);
    let v = slot(m, ci, 0);
    let d1 = decoded_cv(m, d, nat_ext, str_ext, slot(m, v, 0)).0;
    lemma_info_succeeds(m, d, nat_ext, str_ext, slot(m, v, 0));
    law_small_field(m, v, 1);
    law_small_field(m, v, 2);
    law_small_field(m, v, 3);
    law_small_field(m, v, 4);
    law_small_field(m, v, 5);
    if tag == 1 || tag == 2 || tag == 3 {
        law_expr_import_succeeds(d1, nat_ext, str_ext, expr_of(m, slot(m, v, 1)));
    } else if tag == 5 {
        let inds = names_of(m, slot(m, v, 3));
        lemma_names_succeed(d1, inds);
        lemma_names_succeed(add_names(d1, inds).0, names_of(m, slot(m, v, 4)));
    } else if tag == 6 {
        law_name_import_succeeds(d1, name_of(m, slot(m, v, 1)));
    } else if tag == 7 {
        let inds = names_of(m, slot(m, v, 1));
        lemma_names_succeed(d1, inds);
        lemma_rules_succeed(
            m,
            add_names(d1, inds).0,
            nat_ext,
            str_ext,
            list_of(m, slot(m, v, 6)),
        );
    }
}

// ---------------------------------------------------------------------------
// The expressions of a constant
// ---------------------------------------------------------------------------

/// The pointers to expressions in the declaration `x`: its type, its value
/// where it has one, and the right-hand sides of a recursor.
pub open spec fn declar_exprs(x: DeclarModel) -> Seq<ExprPtr> {
    match x {
        DeclarModel::Axiom { info } => seq![info.ty],
        DeclarModel::Definition { info, val, .. } => seq![info.ty, val],
        DeclarModel::Theorem { info, val } => seq![info.ty, val],
        DeclarModel::Opaque { info, val } => seq![info.ty, val],
        DeclarModel::Quot { info } => seq![info.ty],
        DeclarModel::Inductive { info, .. } => seq![info.ty],
        DeclarModel::Constructor(c) => seq![c.info.ty],
        DeclarModel::Recursor { info, rec_rules, .. } => seq![info.ty] + rec_rules.map_values(
            |r: RecRule| r.val,
        ),
    }
}

/// The expressions in a declaration that holds the constant info `ci` are the
/// roots of `ci`, in order, none missing and none left over.
pub proof fn law_roots_are_held(m: Bytes, d: DagModel, x: DeclarModel, ci: LeanObj)
    requires
        constant_held(m, d, x, ci),
    ensures
        declar_exprs(x).len() == ci_roots(m, ci).len(),
        forall|i: int|
            0 <= i < ci_roots(m, ci).len() ==> expr_held(
                d,
                #[trigger] declar_exprs(x)[i],
                expr_of(m, ci_roots(m, ci)[i]),
            ),
{
    if x is Recursor {
        lemma_recursor_roots(m, d, x, ci);
    } else {
        let ps = declar_exprs(x);
        let roots = ci_roots(m, ci);
        let v = slot(m, ci, 0);
        assert(roots[0] == slot(m, slot(m, v, 0), 2));
        assert(expr_held(d, ps[0], expr_of(m, roots[0])));
        if ps.len() == 2 {
            assert(roots[1] == slot(m, v, 1));
            assert(expr_held(d, ps[1], expr_of(m, roots[1])));
        }
        assert forall|i: int| 0 <= i < roots.len() implies expr_held(
            d,
            #[trigger] ps[i],
            expr_of(m, roots[i]),
        ) by {
            assert(i == 0 || i == 1);
        }
    }
}

proof fn lemma_recursor_roots(m: Bytes, d: DagModel, x: DeclarModel, ci: LeanObj)
    requires
        constant_held(m, d, x, ci),
        x is Recursor,
    ensures
        declar_exprs(x).len() == ci_roots(m, ci).len(),
        forall|i: int|
            0 <= i < ci_roots(m, ci).len() ==> expr_held(
                d,
                #[trigger] declar_exprs(x)[i],
                expr_of(m, ci_roots(m, ci)[i]),
            ),
{
    let ps = declar_exprs(x);
    let roots = ci_roots(m, ci);
    let v = slot(m, ci, 0);
    let rules = list_of(m, slot(m, v, 6));
    let rec_rules = x->Recursor_rec_rules;
    assert(roots[0] == slot(m, slot(m, v, 0), 2));
    assert(expr_held(d, ps[0], expr_of(m, roots[0])));
    assert forall|i: int| 0 <= i < roots.len() implies expr_held(
        d,
        #[trigger] ps[i],
        expr_of(m, roots[i]),
    ) by {
        if i > 0 {
            assert(ps[i] == rec_rules[i - 1].val);
            assert(roots[i] == slot(m, rules[i - 1], 2));
            assert(rule_held(m, d, rec_rules[i - 1], rules[i - 1]));
        }
    }
}

proof fn lemma_rule_wf(m: Bytes, d: DagModel, nat_ext: bool, str_ext: bool, o: LeanObj)
    requires
        wf(d),
        fits(decoded_rule(m, d, nat_ext, str_ext, o).0),
        decoded_rule(m, d, nat_ext, str_ext, o).1 is Ok,
    ensures
        wf(decoded_rule(m, d, nat_ext, str_ext, o).0),
{
    let n = name_of(m, slot(m, o, 0));
    let t = expr_of(m, slot(m, o, 2));
    let d1 = add_name(d, n).0;
    lemma_expr_grows(d1, nat_ext, str_ext, t);
    lemma_fits_down(d1, add_expr(d1, nat_ext, str_ext, t).0);
    lemma_name_wf(d, n);
    lemma_expr_wf(d1, nat_ext, str_ext, t);
}

proof fn lemma_rules_wf(m: Bytes, d: DagModel, nat_ext: bool, str_ext: bool, os: Seq<LeanObj>)
    requires
        wf(d),
        fits(decoded_rules(m, d, nat_ext, str_ext, os).0),
        decoded_rules(m, d, nat_ext, str_ext, os).1 is Ok,
    ensures
        wf(decoded_rules(m, d, nat_ext, str_ext, os).0),
    decreases os.len(),
{
    if os.len() > 0 {
        let d1 = decoded_rules(m, d, nat_ext, str_ext, os.drop_last()).0;
        lemma_rule_grows(m, d1, nat_ext, str_ext, os.last());
        lemma_fits_down(d1, decoded_rule(m, d1, nat_ext, str_ext, os.last()).0);
        lemma_rules_wf(m, d, nat_ext, str_ext, os.drop_last());
        lemma_rule_wf(m, d1, nat_ext, str_ext, os.last());
    }
}

proof fn lemma_names_wf(d: DagModel, ns: Seq<NameTree>)
    requires
        wf(d),
        fits(add_names(d, ns).0),
        add_names(d, ns).1 is Ok,
    ensures
        wf(add_names(d, ns).0),
    decreases ns.len(),
{
    if ns.len() > 0 {
        let d1 = add_names(d, ns.drop_last()).0;
        lemma_name_grows(d1, ns.last());
        lemma_fits_down(d1, add_name(d1, ns.last()).0);
        lemma_names_wf(d, ns.drop_last());
        lemma_name_wf(d1, ns.last());
    }
}

/// Decoding keeps the arena an arena, and only lets it grow.
proof fn lemma_constant_wf(m: Bytes, d: DagModel, nat_ext: bool, str_ext: bool, ci: LeanObj)
    requires
        wf(d),
        fits(decoded_constant_info(m, d, nat_ext, str_ext, ci).0),
        decoded_constant_info(m, d, nat_ext, str_ext, ci).1 is Ok,
    ensures
        wf(decoded_constant_info(m, d, nat_ext, str_ext, ci).0),
        extends(d, decoded_constant_info(m, d, nat_ext, str_ext, ci).0),
{
    let tag = tag_of(m, ci);
    let v = slot(m, ci, 0);
    let cv = slot(m, v, 0);
    let e = decoded_constant_info(m, d, nat_ext, str_ext, ci).0;
    if tag == 0 || tag == 4 {
        law_info_reads_back(m, d, nat_ext, str_ext, cv);
    } else if tag == 1 || tag == 2 || tag == 3 {
        law_value_reads_back(m, d, nat_ext, str_ext, v);
    } else {
        let d1 = decoded_cv(m, d, nat_ext, str_ext, cv).0;
        if tag == 5 {
            let inds = names_of(m, slot(m, v, 3));
            let ctors = names_of(m, slot(m, v, 4));
            let d2 = add_names(d1, inds).0;
            lemma_names_grow(d1, inds);
            lemma_names_grow(d2, ctors);
            lemma_extends_trans(d1, d2, e);
            lemma_fits_down(d1, e);
            lemma_fits_down(d2, e);
            law_info_reads_back(m, d, nat_ext, str_ext, cv);
            lemma_names_wf(d1, inds);
            lemma_names_wf(d2, ctors);
        } else if tag == 6 {
            let ind = name_of(m, slot(m, v, 1));
            lemma_name_grows(d1, ind);
            lemma_fits_down(d1, e);
            law_info_reads_back(m, d, nat_ext, str_ext, cv);
            lemma_name_wf(d1, ind);
        } else {
            let inds = names_of(m, slot(m, v, 1));
            let rules = list_of(m, slot(m, v, 6));
            let d2 = add_names(d1, inds).0;
            lemma_names_grow(d1, inds);
            lemma_rules_grow(m, d2, nat_ext, str_ext, rules);
            lemma_extends_trans(d1, d2, e);
            lemma_fits_down(d1, e);
            lemma_fits_down(d2, e);
            law_info_reads_back(m, d, nat_ext, str_ext, cv);
            lemma_names_wf(d1, inds);
            lemma_rules_wf(m, d2, nat_ext, str_ext, rules);
        }
        lemma_extends_trans(d, d1, e);
    }
}

proof fn lemma_roots_importable(
    m: Bytes,
    ci: LeanObj,
    nat_ext: bool,
    str_ext: bool,
    bignums: bool,
    i: int,
)
    requires
        constant_decodable(m, ci, nat_ext, str_ext, bignums),
        0 <= i < ci_roots(m, ci).len(),
    ensures
        expr_importable(expr_of(m, ci_roots(m, ci)[i]), nat_ext, str_ext, bignums),
{
    if tag_of(m, ci) == 7 && i > 0 {
        let rules = list_of(m, slot(m, slot(m, ci, 0), 6));
        assert(rule_decodable(m, rules[i - 1], nat_ext, str_ext, bignums));
    }
}

/// The roots of a constant info are complete: once it is decoded, importing its
/// roots in order gives the pointers to expressions in the declaration, in
/// order, none missing and none left over, and adds nothing to the arena. A
/// declaration that is checked here is decoded, and has its roots, as the
/// constant info with the same contents.
pub proof fn law_roots_are_complete(
    m: Bytes,
    d: DagModel,
    nat_ext: bool,
    str_ext: bool,
    ci: LeanObj,
)
    requires
        wf(d),
        fits(decoded_constant_info(m, d, nat_ext, str_ext, ci).0),
        decoded_constant_info(m, d, nat_ext, str_ext, ci).1 is Ok,
    ensures
        ({
            let (e, r) = decoded_constant_info(m, d, nat_ext, str_ext, ci);
            let roots = ci_roots(m, ci);
            let ps = declar_exprs(r->Ok_0);
            &&& ps.len() == roots.len()
            &&& forall|i: int|
                0 <= i < roots.len() ==> add_expr(e, nat_ext, str_ext, expr_of(m, roots[i])) == (
                    e,
                    Ok::<ExprPtr, Seq<char>>(#[trigger] ps[i]),
                )
        }),
{
    let (e, r) = decoded_constant_info(m, d, nat_ext, str_ext, ci);
    let roots = ci_roots(m, ci);
    let ps = declar_exprs(r->Ok_0);
    law_constant_reads_back(m, d, nat_ext, str_ext, ci);
    law_roots_are_held(m, e, r->Ok_0, ci);
    lemma_constant_wf(m, d, nat_ext, str_ext, ci);
    lemma_keeps_bignums(d, e);
    law_decoding_succeeds(m, d, nat_ext, str_ext, ci);
    assert forall|i: int| 0 <= i < roots.len() implies add_expr(
        e,
        nat_ext,
        str_ext,
        expr_of(m, roots[i]),
    ) == (e, Ok::<ExprPtr, Seq<char>>(#[trigger] ps[i])) by {
        lemma_roots_importable(m, ci, nat_ext, str_ext, e.bignums is Some, i);
        law_held_is_imported(e, nat_ext, str_ext, ps[i], expr_of(m, roots[i]));
    }
}

} // verus!
