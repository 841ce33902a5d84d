//! Which error a decoding stops on: the first thing wrong with the constant, in
//! the order in which its parts are decoded.

use crate::arena::{lemma_expr_grows, lemma_levels_grow, lemma_name_grows, lemma_names_grow};
use crate::decode::{decoded_constant_info, decoded_cv, decoded_rule, decoded_rules, u16_field};
use crate::layout::{law_object_parts, raw_field, raw_tag};
use crate::laws::{
    ends_as, expr_fault, first_fault, law_expr_error, law_levels_error, law_name_error,
    lemma_keeps_bignums, levels_fault, name_fault,
};
use crate::lean_sys::{slot, LeanObj};
use crate::memory::Bytes;
use crate::model::{add_expr, add_levels, add_name, add_names, params_of, DagModel};
use crate::term::{expr_of, list_of, name_of, names_of, NameTree};
use crate::text::digits;
use vstd::prelude::*;

verus! {

/// What is wrong with the names `ns`, from the first on.
pub open spec fn names_fault(ns: Seq<NameTree>) -> Option<Seq<char>>
    decreases ns.len(),
{
    if ns.len() == 0 {
        None
    } else {
        first_fault(names_fault(ns.drop_last()), name_fault(ns.last()))
    }
}

/// What is wrong with the number `o` as a count: it is no scalar, or it is
/// above the largest count.
pub open spec fn count_fault(o: LeanObj) -> Option<Seq<char>> {
    if o % 2 == 0 {
        Some("bignum where small Nat field expected"@)
    } else if o > 2 * 65535 + 1 {
        Some("Nat field exceeds u16"@)
    } else {
        None
    }
}

/// What is wrong with what all constants have: the name, the level parameters,
/// the type.
pub open spec fn info_fault(
    m: Bytes,
    o: LeanObj,
    nat_ext: bool,
    str_ext: bool,
    bignums: bool,
) -> Option<Seq<char>> {
    first_fault(
        name_fault(name_of(m, raw_field(m, o, 0))),
        first_fault(
            names_fault(names_of(m, raw_field(m, o, 1))),
            expr_fault(expr_of(m, raw_field(m, o, 2)), nat_ext, str_ext, bignums),
        ),
    )
}

/// What is wrong with the rule `o`: its constructor, its number of fields, its
/// right-hand side.
pub open spec fn rule_fault(
    m: Bytes,
    o: LeanObj,
    nat_ext: bool,
    str_ext: bool,
    bignums: bool,
) -> Option<Seq<char>> {
    first_fault(
        name_fault(name_of(m, raw_field(m, o, 0))),
        first_fault(
            count_fault(raw_field(m, o, 1)),
            expr_fault(expr_of(m, raw_field(m, o, 2)), nat_ext, str_ext, bignums),
        ),
    )
}

/// What is wrong with the rules `os`, from the first on.
pub open spec fn rules_fault(
    m: Bytes,
    os: Seq<LeanObj>,
    nat_ext: bool,
    str_ext: bool,
    bignums: bool,
) -> Option<Seq<char>>
    decreases os.len(),
{
    if os.len() == 0 {
        None
    } else {
        first_fault(
            rules_fault(m, os.drop_last(), nat_ext, str_ext, bignums),
            rule_fault(m, os.last(), nat_ext, str_ext, bignums),
        )
    }
}

/// What is wrong with the rest of a constant, behind what all constants have:
/// with the value of a definition, a theorem or an opaque constant, or with the
/// counts, names and rules of the other kinds.
pub open spec fn rest_fault(
    m: Bytes,
    tag: int,
    v: LeanObj,
    nat_ext: bool,
    str_ext: bool,
    bignums: bool,
) -> Option<Seq<char>> {
    let f1 = raw_field(m, v, 1);
    let f2 = raw_field(m, v, 2);
    let f3 = raw_field(m, v, 3);
    let f4 = raw_field(m, v, 4);
    let f5 = raw_field(m, v, 5);
    if 1 <= tag <= 3 {
        expr_fault(expr_of(m, f1), nat_ext, str_ext, bignums)
    } else if tag == 5 {
        first_fault(
            first_fault(count_fault(f1), count_fault(f2)),
            first_fault(names_fault(names_of(m, f3)), names_fault(names_of(m, f4))),
        )
    } else if tag == 6 {
        first_fault(
            name_fault(name_of(m, f1)),
            first_fault(count_fault(f2), first_fault(count_fault(f3), count_fault(f4))),
        )
    } else if tag == 7 {
        first_fault(
            first_fault(
                names_fault(names_of(m, f1)),
                first_fault(
                    first_fault(count_fault(f2), count_fault(f3)),
                    first_fault(count_fault(f4), count_fault(f5)),
                ),
            ),
            rules_fault(m, list_of(m, raw_field(m, v, 6)), nat_ext, str_ext, bignums),
        )
    } else {
        None
    }
}

/// What is wrong with the constant info `ci`.
pub open spec fn constant_fault(
    m: Bytes,
    ci: LeanObj,
    nat_ext: bool,
    str_ext: bool,
    bignums: bool,
) -> Option<Seq<char>> {
    let tag = raw_tag(m, ci);
    let v = raw_field(m, ci, 0);
    if tag > 7 {
        Some("unknown ConstantInfo tag "@ + digits(tag as nat, 10))
    } else {
        first_fault(
            info_fault(m, raw_field(m, v, 0), nat_ext, str_ext, bignums),
            rest_fault(m, tag, v, nat_ext, str_ext, bignums),
        )
    }
}

proof fn lemma_names_error(d: DagModel, ns: Seq<NameTree>)
    ensures
        ends_as(add_names(d, ns).1, names_fault(ns)),
        add_names(d, ns).0.bignums is Some <==> d.bignums is Some,
    decreases ns.len(),
{
    lemma_names_grow(d, ns);
    lemma_keeps_bignums(d, add_names(d, ns).0);
    if ns.len() > 0 {
        lemma_names_error(d, ns.drop_last());
        law_name_error(add_names(d, ns.drop_last()).0, ns.last());
    }
}

proof fn lemma_params_fault(ns: Seq<NameTree>)
    ensures
        levels_fault(params_of(ns)) == names_fault(ns),
    decreases ns.len(),
{
    if ns.len() > 0 {
        lemma_params_fault(ns.drop_last());
        assert(params_of(ns).drop_last() =~= params_of(ns.drop_last()));
    }
}

/// A count is taken as the number of its scalar, and refused where it has none.
proof fn lemma_count_error(m: Bytes, o: LeanObj, i: int)
    ensures
        ends_as(u16_field(m, o, i), count_fault(raw_field(m, o, i))),
{
    law_object_parts(m, o, i, 0);
}

proof fn lemma_info_error(m: Bytes, d: DagModel, nat_ext: bool, str_ext: bool, o: LeanObj)
    ensures
        ends_as(
            decoded_cv(m, d, nat_ext, str_ext, o).1,
            info_fault(m, o, nat_ext, str_ext, d.bignums is Some),
        ),
        decoded_cv(m, d, nat_ext, str_ext, o).0.bignums is Some <==> d.bignums is Some,
{
    law_object_parts(m, o, 0, 0);
    law_object_parts(m, o, 1, 0);
    law_object_parts(m, o, 2, 0);
    let name = name_of(m, slot(m, o, 0));
    let names = names_of(m, slot(m, o, 1));
    let ty = expr_of(m, slot(m, o, 2));
    let d1 = add_name(d, name).0;
    let d2 = add_levels(d1, params_of(names)).0;
    law_name_error(d, name);
    lemma_name_grows(d, name);
    lemma_keeps_bignums(d, d1);
    law_levels_error(d1, params_of(names));
    lemma_params_fault(names);
    lemma_levels_grow(d1, params_of(names));
    lemma_keeps_bignums(d1, d2);
    law_expr_error(d2, nat_ext, str_ext, ty);
    lemma_expr_grows(d2, nat_ext, str_ext, ty);
    lemma_keeps_bignums(d2, add_expr(d2, nat_ext, str_ext, ty).0);
}

proof fn lemma_rule_error(m: Bytes, d: DagModel, nat_ext: bool, str_ext: bool, o: LeanObj)
    ensures
        ends_as(
            decoded_rule(m, d, nat_ext, str_ext, o).1,
            rule_fault(m, o, nat_ext, str_ext, d.bignums is Some),
        ),
        decoded_rule(m, d, nat_ext, str_ext, o).0.bignums is Some <==> d.bignums is Some,
{
    law_object_parts(m, o, 0, 0);
    law_object_parts(m, o, 2, 0);
    let name = name_of(m, slot(m, o, 0));
    let val = expr_of(m, slot(m, o, 2));
    let d1 = add_name(d, name).0;
    law_name_error(d, name);
    lemma_name_grows(d, name);
    lemma_keeps_bignums(d, d1);
    lemma_count_error(m, o, 1);
    law_expr_error(d1, nat_ext, str_ext, val);
    lemma_expr_grows(d1, nat_ext, str_ext, val);
    lemma_keeps_bignums(d1, add_expr(d1, nat_ext, str_ext, val).0);
}

proof fn lemma_rules_error(m: Bytes, d: DagModel, nat_ext: bool, str_ext: bool, os: Seq<LeanObj>)
    ensures
        ends_as(
            decoded_rules(m, d, nat_ext, str_ext, os).1,
            rules_fault(m, os, nat_ext, str_ext, d.bignums is Some),
        ),
        decoded_rules(m, d, nat_ext, str_ext, os).0.bignums is Some <==> d.bignums is Some,
    decreases os.len(),
{
    if os.len() > 0 {
        lemma_rules_error(m, d, nat_ext, str_ext, os.drop_last());
        let d1 = decoded_rules(m, d, nat_ext, str_ext, os.drop_last()).0;
        lemma_rule_error(m, d1, nat_ext, str_ext, os.last());
    }
}

/// A decoding stops on the first thing that is wrong with its constant, with
/// the message for it, and succeeds where nothing is wrong.
pub proof fn law_decoding_error(
    m: Bytes,
    d: DagModel,
    nat_ext: bool,
    str_ext: bool,
    ci: LeanObj,
)
    ensures
        ends_as(
            decoded_constant_info(m, d, nat_ext, str_ext, ci).1,
            constant_fault(m, ci, nat_ext, str_ext, d.bignums is Some),
        ),
{
    let tag = raw_tag(m, ci);
    let v = raw_field(m, ci, 0);
    law_object_parts(m, ci, 0, 0);
    law_object_parts(m, v, 0, 0);
    law_object_parts(m, v, 1, 0);
    law_object_parts(m, v, 3, 0);
    law_object_parts(m, v, 4, 0);
    law_object_parts(m, v, 6, 0);
    let d1 = decoded_cv(m, d, nat_ext, str_ext, slot(m, v, 0)).0;
    lemma_info_error(m, d, nat_ext, str_ext, slot(m, v, 0));
    lemma_count_error(m, v, 1);
    lemma_count_error(m, v, 2);
    lemma_count_error(m, v, 3);
    lemma_count_error(m, v, 4);
    lemma_count_error(m, v, 5);
    if 1 <= tag <= 3 {
        law_expr_error(d1, nat_ext, str_ext, expr_of(m, slot(m, v, 1)));
    } else if tag == 5 {
        let inds = names_of(m, slot(m, v, 3));
        lemma_names_error(d1, inds);
        lemma_names_error(add_names(d1, inds).0, names_of(m, slot(m, v, 4)));
    } else if tag == 6 {
        law_name_error(d1, name_of(m, slot(m, v, 1)));
    } else if tag == 7 {
        let inds = names_of(m, slot(m, v, 1));
        lemma_names_error(d1, inds);
        lemma_rules_error(
            m,
            add_names(d1, inds).0,
            nat_ext,
            str_ext,
            list_of(m, slot(m, v, 6)),
        );
    }
}

} // verus!
