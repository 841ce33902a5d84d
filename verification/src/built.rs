//! What the objects that a plan builds look like in memory.
//!
//! A call lays its arguments out in the fields of the new object, as
//! [`crate::term`] reads them. So what is read off a built object is what it
//! was built from: the same pointers where objects were passed, and the same
//! tree as a whole.

use crate::lean_sys::{
    has_slot, has_slots, has_tag, is_string, nat_readable, nat_value, scalar, scalar_u8, slot,
    string_of, tag_of, LeanObj,
};
use crate::layout::{
    heap, law_object_parts, law_text_layout, lays_nat, lays_text, lemma_heap, lemma_nat_layout,
    lemma_parts, raw_byte, raw_field, raw_tag,
};
use crate::memory::{readable, Bytes};
use crate::plan::{
    decimal_value, expr_built, is_decimal, law_nat_built, level_built, levels_built, name_built,
    nat_built, nat_plan, nat_tree, str_built, string_plan, Fn1, Fn2, Fn3, Fn4, Plan,
};
use crate::term::{
    binder_info_of, expr_of, expr_repr, is_expr, is_level, is_levels, is_list, is_name,
    lemma_expr_of, lemma_level_of, lemma_levels_of, lemma_list_of, lemma_name_of, level_of,
    level_repr, levels_of, levels_repr, list_of, list_repr, name_kind_is, name_node, name_of,
    name_repr, nat_of, nat_repr, term_kind_is, term_node, ExprTree, LevelTree, Name, NameKind,
    NameTree, NatTree, Term, TermKind, BINDER_INFO_OFFSET, LET_NONDEP_OFFSET,
};
use vstd::prelude::*;

verus! {

/// Whether `o` is the address of an object with the tag `tag` whose first `n`
/// fields can be read.
pub open spec fn cell(m: Bytes, o: LeanObj, tag: int, n: int) -> bool {
    heap(m, o, n) && raw_tag(m, o) == tag
}

/// Whether `o` is, in the memory `m`, an object that `p` builds.
pub open spec fn built(m: Bytes, p: Plan, o: LeanObj) -> bool
    decreases p,
{
    match p {
        Plan::Object(x) => o == x,
        Plan::Str(s) => lays_text(m, o, s),
        Plan::Nat(s) => is_decimal(s) ==> lays_nat(m, o, nat_tree(decimal_value(s))),
        Plan::Call1(f, a) => match f {
            Fn1::LevelZero => o % 2 == 1,
            Fn1::LevelSucc => cell(m, o, 1, 1) && built(m, *a, raw_field(m, o, 0)),
            Fn1::LevelParam => cell(m, o, 4, 1) && built(m, *a, raw_field(m, o, 0)),
            Fn1::ExprBVar => cell(m, o, 0, 1) && built(m, *a, raw_field(m, o, 0)),
            Fn1::ExprFVar => cell(m, o, 1, 1) && built(m, *a, raw_field(m, o, 0)),
            Fn1::ExprSort => cell(m, o, 3, 1) && built(m, *a, raw_field(m, o, 0)),
            Fn1::ExprLit => cell(m, o, 9, 1) && built(m, *a, raw_field(m, o, 0)),
            Fn1::Ctor(tag) => cell(m, o, tag as int, 1) && built(m, *a, raw_field(m, o, 0)),
        },
        Plan::Call2(f, a, b) => {
            let tag = match f {
                Fn2::NameStr => 1,
                Fn2::NameNum => 2,
                Fn2::LevelMax => 2,
                Fn2::LevelIMax => 3,
                Fn2::ExprConst => 4,
                Fn2::ExprApp => 5,
                Fn2::Ctor(t) => t as int,
            };
            &&& cell(m, o, tag, 2)
            &&& built(m, *a, raw_field(m, o, 0))
            &&& built(m, *b, raw_field(m, o, 1))
        },
        Plan::Call3(f, a, b, c) => {
            &&& match f {
                Fn3::ExprLambda(bi) => {
                    &&& cell(m, o, 6, 3)
                    &&& readable(m, o + 40, 1)
                    &&& raw_byte(m, o + 40) == bi
                },
                Fn3::ExprForall(bi) => {
                    &&& cell(m, o, 7, 3)
                    &&& readable(m, o + 40, 1)
                    &&& raw_byte(m, o + 40) == bi
                },
                Fn3::ExprProj => cell(m, o, 11, 3),
            }
            &&& built(m, *a, raw_field(m, o, 0))
            &&& built(m, *b, raw_field(m, o, 1))
            &&& built(m, *c, raw_field(m, o, 2))
        },
        Plan::Call4(Fn4::ExprLet(nondep), a, b, c, e) => {
            &&& cell(m, o, 8, 4)
            &&& readable(m, o + 48, 1)
            &&& raw_byte(m, o + 48) == nondep
            &&& built(m, *a, raw_field(m, o, 0))
            &&& built(m, *b, raw_field(m, o, 1))
            &&& built(m, *c, raw_field(m, o, 2))
            &&& built(m, *e, raw_field(m, o, 3))
        },
    }
}

/// What the readers see of an object with a tag and fields.
proof fn lemma_cell(m: Bytes, o: LeanObj, tag: int, n: int)
    requires
        cell(m, o, tag, n),
    ensures
        !scalar(o),
        has_tag(m, o),
        tag_of(m, o) == tag,
        has_slots(m, o, n),
        slot(m, o, 0) == raw_field(m, o, 0),
        slot(m, o, 1) == raw_field(m, o, 1),
        slot(m, o, 2) == raw_field(m, o, 2),
        slot(m, o, 3) == raw_field(m, o, 3),
        scalar_u8(m, o, BINDER_INFO_OFFSET as int) == raw_byte(m, o + 40),
        scalar_u8(m, o, LET_NONDEP_OFFSET as int) == raw_byte(m, o + 48),
{
    lemma_heap(m, o, n);
    lemma_parts(m, o);
    law_object_parts(m, o, 0, BINDER_INFO_OFFSET as int);
    law_object_parts(m, o, 0, LET_NONDEP_OFFSET as int);
}

// ---------------------------------------------------------------------------
// The same pointers
// ---------------------------------------------------------------------------

/// A lambda built out of objects is read back with those objects in its parts.
pub proof fn law_lambda_kind(
    m: Bytes,
    n: LeanObj,
    t: LeanObj,
    b: LeanObj,
    bi: u8,
    x: LeanObj,
    k: TermKind,
)
    requires
        built(
            m,
            Plan::Call3(
                Fn3::ExprLambda(bi),
                Box::new(Plan::Object(n)),
                Box::new(Plan::Object(t)),
                Box::new(Plan::Object(b)),
            ),
            x,
        ),
    ensures
        term_node(m, x),
        term_kind_is(m, x, k) ==> k == TermKind::Lambda(
            Name(n),
            binder_info_of(bi),
            Term(t),
            Term(b),
        ),
{
    reveal(term_node);
    reveal_with_fuel(built, 2);
    lemma_cell(m, x, 6, 3);
}

/// A pi built out of objects is read back with those objects in its parts.
pub proof fn law_pi_kind(
    m: Bytes,
    n: LeanObj,
    t: LeanObj,
    b: LeanObj,
    bi: u8,
    x: LeanObj,
    k: TermKind,
)
    requires
        built(
            m,
            Plan::Call3(
                Fn3::ExprForall(bi),
                Box::new(Plan::Object(n)),
                Box::new(Plan::Object(t)),
                Box::new(Plan::Object(b)),
            ),
            x,
        ),
    ensures
        term_node(m, x),
        term_kind_is(m, x, k) ==> k == TermKind::Pi(Name(n), binder_info_of(bi), Term(t), Term(b)),
{
    reveal(term_node);
    reveal_with_fuel(built, 2);
    lemma_cell(m, x, 7, 3);
}

/// A let built out of objects is read back with those objects in its parts.
pub proof fn law_let_kind(
    m: Bytes,
    n: LeanObj,
    t: LeanObj,
    v: LeanObj,
    b: LeanObj,
    nondep: bool,
    x: LeanObj,
    k: TermKind,
)
    requires
        built(
            m,
            Plan::Call4(
                Fn4::ExprLet(
                    if nondep {
                        1
                    } else {
                        0
                    },
                ),
                Box::new(Plan::Object(n)),
                Box::new(Plan::Object(t)),
                Box::new(Plan::Object(v)),
                Box::new(Plan::Object(b)),
            ),
            x,
        ),
    ensures
        term_node(m, x),
        term_kind_is(m, x, k) ==> k == TermKind::Let(Name(n), Term(t), Term(v), Term(b), nondep),
{
    reveal(term_node);
    reveal_with_fuel(built, 2);
    lemma_cell(m, x, 8, 4);
}

/// The anonymous name is read back as such.
pub proof fn law_anon_kind(m: Bytes, x: LeanObj, k: NameKind)
    requires
        built(m, Plan::Object(1), x),
    ensures
        name_node(m, x),
        name_kind_is(m, x, k) ==> k is Anon,
{
}

/// A name built by putting a string behind the object `p` is read back with
/// that object and that string.
pub proof fn law_name_str_kind(m: Bytes, p: LeanObj, s: Seq<char>, x: LeanObj, k: NameKind)
    requires
        built(
            m,
            Plan::Call2(Fn2::NameStr, Box::new(Plan::Object(p)), Box::new(string_plan(s))),
            x,
        ),
    ensures
        name_node(m, x),
        name_kind_is(m, x, k) ==> (k matches NameKind::Str(q, u) && q.0 == p && u@ == s),
{
    reveal_with_fuel(built, 2);
    lemma_cell(m, x, 1, 2);
    law_text_layout(m, slot(m, x, 1), s);
}

/// A name built by putting a number behind the object `p` is read back with
/// that object and that number.
pub proof fn law_name_num_kind(m: Bytes, p: LeanObj, i: u64, x: LeanObj, k: NameKind)
    requires
        built(
            m,
            Plan::Call2(Fn2::NameNum, Box::new(Plan::Object(p)), Box::new(nat_plan(i))),
            x,
        ),
    ensures
        name_node(m, x),
        name_kind_is(m, x, k) ==> (k matches NameKind::Num(q, n) && q.0 == p && nat_readable(
            m,
            n.0,
        ) && nat_value(m, n.0) == i),
{
    reveal_with_fuel(built, 2);
    lemma_cell(m, x, 2, 2);
    law_nat_built(m, i);
    lemma_nat_stands(m, nat_plan(i), slot(m, x, 1), nat_tree(i as nat));
}

/// The calls that build the list of the objects `os`, head first.
pub open spec fn list_plan(os: Seq<LeanObj>) -> Plan
    decreases os.len(),
{
    if os.len() == 0 {
        Plan::Object(1)
    } else {
        Plan::Call2(
            Fn2::Ctor(1),
            Box::new(Plan::Object(os[0])),
            Box::new(list_plan(os.drop_first())),
        )
    }
}

/// A list built out of objects holds those objects, head first.
pub proof fn law_list_cells(m: Bytes, os: Seq<LeanObj>, o: LeanObj)
    requires
        built(m, list_plan(os), o),
    ensures
        is_list(m, o),
        list_of(m, o) == os,
{
    lemma_list_cells(m, os, o);
    lemma_list_of(m, o, os);
}

proof fn lemma_list_cells(m: Bytes, os: Seq<LeanObj>, o: LeanObj)
    requires
        built(m, list_plan(os), o),
    ensures
        list_repr(m, o, os),
    decreases os.len(),
{
    if os.len() > 0 {
        reveal_with_fuel(built, 2);
        lemma_cell(m, o, 1, 2);
        lemma_list_cells(m, os.drop_first(), slot(m, o, 1));
    }
}

// ---------------------------------------------------------------------------
// The same tree
// ---------------------------------------------------------------------------

proof fn lemma_nat_stands(m: Bytes, p: Plan, o: LeanObj, n: NatTree)
    requires
        built(m, p, o),
        nat_built(m, p) == Some(n),
    ensures
        nat_repr(m, o, n),
{
    match p {
        Plan::Object(x) => {
            assert(nat_repr(m, x, nat_of(m, x)));
        },
        Plan::Nat(s) => {
            lemma_nat_layout(m, o, nat_tree(decimal_value(s)));
        },
        _ => {},
    }
}

proof fn lemma_str_stands(m: Bytes, p: Plan, o: LeanObj, s: Seq<char>)
    requires
        built(m, p, o),
        str_built(m, p) == Some(s),
    ensures
        is_string(m, o),
        string_of(m, o) == s,
{
    if p is Str {
        law_text_layout(m, o, s);
    }
}

proof fn lemma_name_stands(m: Bytes, p: Plan, o: LeanObj, t: NameTree)
    requires
        built(m, p, o),
        name_built(m, p) == Some(t),
    ensures
        name_repr(m, o, t),
    decreases p,
{
    match p {
        Plan::Object(x) => {
            reveal(is_name);
            assert(name_repr(m, x, name_of(m, x)));
        },
        Plan::Call2(Fn2::NameStr, a, b) => {
            lemma_cell(m, o, 1, 2);
            lemma_name_stands(m, *a, slot(m, o, 0), name_built(m, *a)->0);
            lemma_str_stands(m, *b, slot(m, o, 1), str_built(m, *b)->0);
        },
        Plan::Call2(Fn2::NameNum, a, b) => {
            lemma_cell(m, o, 2, 2);
            lemma_name_stands(m, *a, slot(m, o, 0), name_built(m, *a)->0);
            lemma_nat_stands(m, *b, slot(m, o, 1), nat_built(m, *b)->0);
        },
        _ => {},
    }
}

/// A built object stands for the name that was built.
pub proof fn law_name_stands(m: Bytes, p: Plan, o: LeanObj, t: NameTree)
    requires
        built(m, p, o),
        name_built(m, p) == Some(t),
    ensures
        is_name(m, o),
        name_of(m, o) == t,
{
    lemma_name_stands(m, p, o, t);
    lemma_name_of(m, o, t);
}

proof fn lemma_level_stands(m: Bytes, p: Plan, o: LeanObj, t: LevelTree)
    requires
        built(m, p, o),
        level_built(m, p) == Some(t),
    ensures
        level_repr(m, o, t),
    decreases p,
{
    match p {
        Plan::Object(x) => {
            reveal(is_level);
            assert(level_repr(m, x, level_of(m, x)));
        },
        Plan::Call1(Fn1::LevelSucc, a) => {
            lemma_cell(m, o, 1, 1);
            lemma_level_stands(m, *a, slot(m, o, 0), level_built(m, *a)->0);
        },
        Plan::Call1(Fn1::LevelParam, a) => {
            lemma_cell(m, o, 4, 1);
            lemma_name_stands(m, *a, slot(m, o, 0), name_built(m, *a)->0);
        },
        Plan::Call2(Fn2::LevelMax, a, b) => {
            lemma_cell(m, o, 2, 2);
            lemma_level_stands(m, *a, slot(m, o, 0), level_built(m, *a)->0);
            lemma_level_stands(m, *b, slot(m, o, 1), level_built(m, *b)->0);
        },
        Plan::Call2(Fn2::LevelIMax, a, b) => {
            lemma_cell(m, o, 3, 2);
            lemma_level_stands(m, *a, slot(m, o, 0), level_built(m, *a)->0);
            lemma_level_stands(m, *b, slot(m, o, 1), level_built(m, *b)->0);
        },
        _ => {},
    }
}

/// A built object stands for the level that was built.
pub proof fn law_level_stands(m: Bytes, p: Plan, o: LeanObj, t: LevelTree)
    requires
        built(m, p, o),
        level_built(m, p) == Some(t),
    ensures
        is_level(m, o),
        level_of(m, o) == t,
{
    lemma_level_stands(m, p, o, t);
    lemma_level_of(m, o, t);
}

proof fn lemma_levels_stand(m: Bytes, p: Plan, o: LeanObj, ls: Seq<LevelTree>)
    requires
        built(m, p, o),
        levels_built(m, p) == Some(ls),
    ensures
        levels_repr(m, o, ls),
    decreases p,
{
    match p {
        Plan::Object(x) => {
            let us = choose|us: Seq<LevelTree>| levels_repr(m, x, us);
            lemma_levels_of(m, x, us);
        },
        Plan::Call2(Fn2::Ctor(_), a, b) => {
            lemma_cell(m, o, 1, 2);
            let head = level_built(m, *a)->0;
            let tail = levels_built(m, *b)->0;
            let rest = list_of(m, slot(m, o, 1));
            let all = seq![slot(m, o, 0)] + rest;
            lemma_level_stands(m, *a, slot(m, o, 0), head);
            lemma_levels_stand(m, *b, slot(m, o, 1), tail);
            assert(list_repr(m, slot(m, o, 1), rest));
            assert(all.drop_first() =~= rest);
            lemma_list_of(m, o, all);
            assert forall|i: int| 0 <= i < ls.len() implies level_repr(
                m,
                #[trigger] list_of(m, o)[i],
                ls[i],
            ) by {
                if i > 0 {
                    assert(level_repr(m, rest[i - 1], tail[i - 1]));
                }
            }
        },
        _ => {},
    }
}

/// A built object stands for the list of levels that was built.
pub proof fn law_levels_stand(m: Bytes, p: Plan, o: LeanObj, ls: Seq<LevelTree>)
    requires
        built(m, p, o),
        levels_built(m, p) == Some(ls),
    ensures
        is_levels(m, o),
        levels_of(m, o) == ls,
{
    lemma_levels_stand(m, p, o, ls);
    lemma_levels_of(m, o, ls);
}

proof fn lemma_lit_stands(m: Bytes, a: Plan, o: LeanObj, t: ExprTree)
    requires
        built(m, Plan::Call1(Fn1::ExprLit, Box::new(a)), o),
        expr_built(m, Plan::Call1(Fn1::ExprLit, Box::new(a))) == Some(t),
    ensures
        expr_repr(m, o, t),
{
    let lit = slot(m, o, 0);
    lemma_cell(m, o, 9, 1);
    assert(built(m, a, lit));
    if let Plan::Call1(Fn1::Ctor(tag), x) = a {
        assert(cell(m, lit, tag as int, 1) && built(m, *x, raw_field(m, lit, 0)));
        lemma_cell(m, lit, tag as int, 1);
        assert(has_slot(m, lit, 0));
        if tag == 0 {
            lemma_nat_stands(m, *x, slot(m, lit, 0), nat_built(m, *x)->0);
        } else {
            lemma_str_stands(m, *x, slot(m, lit, 0), str_built(m, *x)->0);
        }
    }
}

proof fn lemma_expr_stands(m: Bytes, p: Plan, o: LeanObj, t: ExprTree)
    requires
        built(m, p, o),
        expr_built(m, p) == Some(t),
    ensures
        expr_repr(m, o, t),
    decreases p,
{
    let s0 = slot(m, o, 0);
    let s1 = slot(m, o, 1);
    let s2 = slot(m, o, 2);
    let s3 = slot(m, o, 3);
    match p {
        Plan::Object(x) => {
            reveal(is_expr);
            assert(expr_repr(m, x, expr_of(m, x)));
        },
        Plan::Call1(Fn1::ExprBVar, a) => {
            lemma_cell(m, o, 0, 1);
            lemma_nat_stands(m, *a, s0, nat_built(m, *a)->0);
        },
        Plan::Call1(Fn1::ExprSort, a) => {
            lemma_cell(m, o, 3, 1);
            lemma_level_stands(m, *a, s0, level_built(m, *a)->0);
        },
        Plan::Call1(Fn1::ExprLit, a) => {
            lemma_lit_stands(m, *a, o, t);
        },
        Plan::Call1(Fn1::ExprFVar, _) => {
            lemma_cell(m, o, 1, 1);
        },
        Plan::Call2(Fn2::ExprConst, a, b) => {
            lemma_cell(m, o, 4, 2);
            lemma_name_stands(m, *a, s0, name_built(m, *a)->0);
            lemma_levels_stand(m, *b, s1, levels_built(m, *b)->0);
        },
        Plan::Call2(Fn2::ExprApp, a, b) => {
            lemma_cell(m, o, 5, 2);
            lemma_expr_stands(m, *a, s0, expr_built(m, *a)->0);
            lemma_expr_stands(m, *b, s1, expr_built(m, *b)->0);
        },
        Plan::Call3(Fn3::ExprLambda(_), a, b, c) => {
            lemma_cell(m, o, 6, 3);
            lemma_name_stands(m, *a, s0, name_built(m, *a)->0);
            lemma_expr_stands(m, *b, s1, expr_built(m, *b)->0);
            lemma_expr_stands(m, *c, s2, expr_built(m, *c)->0);
        },
        Plan::Call3(Fn3::ExprForall(_), a, b, c) => {
            lemma_cell(m, o, 7, 3);
            lemma_name_stands(m, *a, s0, name_built(m, *a)->0);
            lemma_expr_stands(m, *b, s1, expr_built(m, *b)->0);
            lemma_expr_stands(m, *c, s2, expr_built(m, *c)->0);
        },
        Plan::Call3(Fn3::ExprProj, a, b, c) => {
            lemma_cell(m, o, 11, 3);
            lemma_name_stands(m, *a, s0, name_built(m, *a)->0);
            lemma_nat_stands(m, *b, s1, nat_built(m, *b)->0);
            lemma_expr_stands(m, *c, s2, expr_built(m, *c)->0);
        },
        Plan::Call4(Fn4::ExprLet(_), a, b, c, e) => {
            lemma_cell(m, o, 8, 4);
            lemma_name_stands(m, *a, s0, name_built(m, *a)->0);
            lemma_expr_stands(m, *b, s1, expr_built(m, *b)->0);
            lemma_expr_stands(m, *c, s2, expr_built(m, *c)->0);
            lemma_expr_stands(m, *e, s3, expr_built(m, *e)->0);
        },
        _ => {},
    }
}

/// A built object stands for the expression that was built.
pub proof fn law_expr_stands(m: Bytes, p: Plan, o: LeanObj, t: ExprTree)
    requires
        built(m, p, o),
        expr_built(m, p) == Some(t),
    ensures
        is_expr(m, o),
        expr_of(m, o) == t,
{
    lemma_expr_stands(m, p, o, t);
    lemma_expr_of(m, o, t);
}

} // verus!
