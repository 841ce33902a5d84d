//! Decodes the host's declarations and constant infos, importing the names,
//! levels and expressions in them.
//!
//! Every constant's value object begins with what all constants have (name,
//! level parameters, type) in field 0. Natural numbers are object fields; flags
//! are scalars behind the object fields.

use crate::arena::{lemma_extends_refl, lemma_extends_trans, lemma_valid_extends};
use crate::env::{
    declar_ok, info_ok, names_ok, rules_ok, ConstructorData, Declar, DeclarInfo, DeclarModel,
    InductiveData, RecRule, RecursorData, ReducibilityHint,
};
use crate::importer::{agrees, agrees_seq, ImportError, Importer};
use crate::lean_sys::{
    ctor_get, ctor_get_uint32, ctor_get_uint8, has_scalars, has_slot, has_slots, has_tag, is_scalar,
    nat_as_usize, ptr_tag, scalar, scalar_u8, slot, tag_of, unbox, unboxed, LeanObj, HEADER_SIZE,
};
use crate::memory::{u32_at, Bytes, Memory};
use crate::model::{
    add_expr, add_levels, add_name, add_names, extends, params_of, valid_expr, valid_name, wf,
    DagModel, Outcome,
};
use crate::term::{
    expr_of, is_expr, is_list, is_name, is_names, lemma_expr_parts, list_objs, list_of, name_of,
    names_of, Name, NameTree, Term, TermKind,
};
use crate::text::{decimal, digits};
use crate::util::{ExprPtr, NamePtr};
use crate::walk::{
    are_exprs, children, firsts, lemma_drop, lemma_end, lemma_enter, lemma_start, lemma_top,
    names_in, naming, progress, total, walk,
};
use std::collections::HashSet;
use vstd::prelude::*;
use vstd::slice::slice_to_vec;

verus! {

broadcast use vstd::std_specs::hash::group_hash_axioms;

/// Where the recursion flag of an inductive type lies among its scalars.
pub const INDUCTIVE_REC_OFFSET: u64 = 48;

/// Where the K flag of a recursor lies among its scalars.
pub const RECURSOR_K_OFFSET: u64 = 56;

// ---------------------------------------------------------------------------
// Small fields
// ---------------------------------------------------------------------------

/// The small number in field `i` of `o`, or the message of the error where it
/// is not small.
pub open spec fn u16_field(m: Bytes, o: LeanObj, i: int) -> Result<u16, Seq<char>> {
    let n = slot(m, o, i);
    if !scalar(n) {
        Err("bignum where small Nat field expected"@)
    } else if unboxed(n) > 0xffff {
        Err("Nat field exceeds u16"@)
    } else {
        Ok(unboxed(n) as u16)
    }
}

/// Reads the small number in field `i` of `o`.
fn nat_u16<M: Memory>(mem: &M, o: LeanObj, i: u64) -> (r: Result<u16, ImportError>)
    requires
        has_slot(mem.bytes(), o, i as int),
    ensures
        agrees(r, u16_field(mem.bytes(), o, i as int)),
{
    match nat_as_usize(ctor_get(mem, o, i)) {
        None => Err(ImportError::new("bignum where small Nat field expected")),
        Some(n) => if n > 0xffff {
            Err(ImportError::new("Nat field exceeds u16"))
        } else {
            Ok(n as u16)
        },
    }
}

/// Whether `o` is a live reducibility hint.
pub open spec fn is_hint(m: Bytes, o: LeanObj) -> bool {
    scalar(o) || has_scalars(m, o, 0, 4)
}

/// The reducibility hint `o`: a tagged scalar is opaque (0) or an
/// abbreviation, a heap object is regular, with its height cut off at the
/// largest `u16`.
pub open spec fn hint_of(m: Bytes, o: LeanObj) -> ReducibilityHint {
    if scalar(o) {
        if unboxed(o) == 0 {
            ReducibilityHint::Opaque
        } else {
            ReducibilityHint::Abbrev
        }
    } else {
        let h = u32_at(m, o + HEADER_SIZE);
        ReducibilityHint::Regular(
            if h > 0xffff {
                0xffff
            } else {
                h as u16
            },
        )
    }
}

/// Decodes a reducibility hint.
fn decode_hint<M: Memory>(mem: &M, o: LeanObj) -> (r: ReducibilityHint)
    requires
        is_hint(mem.bytes(), o),
    ensures
        r == hint_of(mem.bytes(), o),
{
    if is_scalar(o) {
        match unbox(o) {
            0 => ReducibilityHint::Opaque,
            _ => ReducibilityHint::Abbrev,
        }
    } else {
        let h: u32 = ctor_get_uint32(mem, o, 0);
        ReducibilityHint::Regular(
            if h > 0xffff {
                0xffff
            } else {
                h as u16
            },
        )
    }
}

// ---------------------------------------------------------------------------
// Lists of names
// ---------------------------------------------------------------------------

/// An import that stops in the first `n` names does not reach the others.
proof fn lemma_names_stop(d: DagModel, ns: Seq<NameTree>, n: int)
    requires
        0 <= n <= ns.len(),
        add_names(d, ns.take(n)).1 is Err,
    ensures
        add_names(d, ns) == add_names(d, ns.take(n)),
    decreases ns.len(),
{
    if n == ns.len() {
        assert(ns.take(n) =~= ns);
    } else {
        assert(ns.drop_last().take(n) =~= ns.take(n));
        lemma_names_stop(d, ns.drop_last(), n);
    }
}

/// Imports a list of names.
fn import_names<'m, 'd, M: Memory>(imp: &mut Importer<'m, 'd, M>, list: LeanObj) -> (r: Result<
    Vec<NamePtr>,
    ImportError,
>)
    requires
        old(imp).wf(),
        is_names(old(imp).bytes(), list),
    ensures
        final(imp).wf(),
        final(imp).same_setup(old(imp)),
        *final(final(imp).dag) == *final(old(imp).dag),
        extends(old(imp).dag@, final(imp).dag@),
        final(imp).dag@ == add_names(old(imp).dag@, names_of(old(imp).bytes(), list)).0,
        agrees_seq(r, add_names(old(imp).dag@, names_of(old(imp).bytes(), list)).1),
        r matches Ok(ps) ==> names_ok(final(imp).dag@, ps@),
{
    let ghost m = imp.bytes();
    let ghost d = imp.dag@;
    let ghost ns = names_of(m, list);
    let objs = list_objs(imp.mem, list);
    let mut out: Vec<NamePtr> = Vec::new();
    let mut i: usize = 0;
    proof {
        lemma_extends_refl(d);
    }
    while i < objs.len()
        invariant
            i <= objs.len(),
            imp.wf(),
            imp.same_setup(old(imp)),
            *final(imp.dag) == *final(old(imp).dag),
            m == imp.bytes(),
            d == old(imp).dag@,
            extends(d, imp.dag@),
            is_names(m, list),
            objs@ == list_of(m, list),
            ns == names_of(m, list),
            add_names(d, ns.take(i as int)) == (imp.dag@, Ok::<Seq<NamePtr>, Seq<char>>(out@)),
            names_ok(imp.dag@, out@),
        decreases objs.len() - i,
    {
        let ghost d1 = imp.dag@;
        let n = objs[i];
        proof {
            assert(ns.take(i + 1).drop_last() =~= ns.take(i as int));
            assert(ns.take(i + 1).last() == name_of(m, n));
        }
        match imp.import_name(Name(n)) {
            Ok(p) => {
                out.push(p);
            },
            Err(e) => {
                proof {
                    lemma_extends_trans(d, d1, imp.dag@);
                    lemma_names_stop(d, ns, i + 1);
                }
                return Err(e);
            },
        }
        proof {
            lemma_extends_trans(d, d1, imp.dag@);
            lemma_valid_extends(d1, imp.dag@);
        }
        i = i + 1;
    }
    proof {
        assert(ns.take(i as int) =~= ns);
    }
    Ok(out)
}

// ---------------------------------------------------------------------------
// What all constants have
// ---------------------------------------------------------------------------

/// Whether `o` is live, as what all constants have: a name, level parameters,
/// a type.
pub open spec fn is_cv(m: Bytes, o: LeanObj) -> bool {
    &&& has_slots(m, o, 3)
    &&& is_name(m, slot(m, o, 0))
    &&& is_names(m, slot(m, o, 1))
    &&& is_expr(m, slot(m, o, 2))
}

/// What decoding the name, level parameters and type in `o` comes to.
pub open spec fn decoded_cv(
    m: Bytes,
    d: DagModel,
    nat_ext: bool,
    str_ext: bool,
    o: LeanObj,
) -> Outcome<DeclarInfo> {
    match add_name(d, name_of(m, slot(m, o, 0))) {
        (d1, Ok(name)) => match add_levels(d1, params_of(names_of(m, slot(m, o, 1)))) {
            (d2, Ok(uparams)) => match add_expr(d2, nat_ext, str_ext, expr_of(m, slot(m, o, 2))) {
                (d3, Ok(ty)) => (d3, Ok(DeclarInfo { name, uparams, ty })),
                (d3, Err(e)) => (d3, Err(e)),
            },
            (d2, Err(e)) => (d2, Err(e)),
        },
        (d1, Err(e)) => (d1, Err(e)),
    }
}

/// Decodes what all constants have.
fn decode_cv<'m, 'd, M: Memory>(imp: &mut Importer<'m, 'd, M>, cv: LeanObj) -> (r: Result<
    DeclarInfo,
    ImportError,
>)
    requires
        old(imp).wf(),
        is_cv(old(imp).bytes(), cv),
    ensures
        final(imp).wf(),
        final(imp).same_setup(old(imp)),
        *final(final(imp).dag) == *final(old(imp).dag),
        extends(old(imp).dag@, final(imp).dag@),
        ({
            let out = decoded_cv(
                old(imp).bytes(),
                old(imp).dag@,
                old(imp).nat_extension,
                old(imp).string_extension,
                cv,
            );
            &&& final(imp).dag@ == out.0
            &&& agrees(r, out.1)
        }),
        r matches Ok(info) ==> info_ok(final(imp).dag@, info),
{
    let ghost d = imp.dag@;
    assert(has_slot(imp.bytes(), cv, 0) && has_slot(imp.bytes(), cv, 1) && has_slot(
        imp.bytes(),
        cv,
        2,
    ));
    let name = match imp.import_name(Name(ctor_get(imp.mem, cv, 0))) {
        Ok(p) => p,
        Err(e) => return Err(e),
    };
    let ghost d1 = imp.dag@;
    let uparams = match imp.import_uparams(ctor_get(imp.mem, cv, 1)) {
        Ok(p) => p,
        Err(e) => {
            proof {
                lemma_extends_trans(d, d1, imp.dag@);
            }
            return Err(e);
        },
    };
    let ghost d2 = imp.dag@;
    proof {
        lemma_extends_trans(d, d1, d2);
        lemma_valid_extends(d1, d2);
    }
    let ty = match imp.import_expr(Term(ctor_get(imp.mem, cv, 2))) {
        Ok(p) => p,
        Err(e) => {
            proof {
                lemma_extends_trans(d, d2, imp.dag@);
            }
            return Err(e);
        },
    };
    proof {
        lemma_extends_trans(d, d2, imp.dag@);
        lemma_valid_extends(d2, imp.dag@);
    }
    Ok(DeclarInfo { name, uparams, ty })
}

// ---------------------------------------------------------------------------
// Constants
// ---------------------------------------------------------------------------

/// Whether `r` is the declaration, or the error with the message, that `s`
/// says.
pub open spec fn agrees_declar(
    r: Result<Declar, ImportError>,
    s: Result<DeclarModel, Seq<char>>,
) -> bool {
    match (r, s) {
        (Ok(a), Ok(b)) => a@ == b,
        (Err(e), Err(msg)) => e.0@ == msg,
        _ => false,
    }
}

/// Whether `v` is live, as an axiom or a quotient constant.
pub open spec fn is_bare_val(m: Bytes, v: LeanObj) -> bool {
    has_slots(m, v, 1) && is_cv(m, slot(m, v, 0))
}

/// Whether `v` is live, as a theorem or an opaque constant.
pub open spec fn is_valued(m: Bytes, v: LeanObj) -> bool {
    &&& has_slots(m, v, 2)
    &&& is_cv(m, slot(m, v, 0))
    &&& is_expr(m, slot(m, v, 1))
}

/// Whether `v` is live, as a definition.
pub open spec fn is_def_val(m: Bytes, v: LeanObj) -> bool {
    &&& has_slots(m, v, 3)
    &&& is_valued(m, v)
    &&& is_hint(m, slot(m, v, 2))
}

/// Whether `v` is live, as an inductive type.
pub open spec fn is_inductive_val(m: Bytes, v: LeanObj) -> bool {
    &&& has_slots(m, v, 6)
    &&& is_cv(m, slot(m, v, 0))
    &&& is_names(m, slot(m, v, 3))
    &&& is_names(m, slot(m, v, 4))
    &&& has_scalars(m, v, INDUCTIVE_REC_OFFSET as int, 1)
}

/// Whether `v` is live, as a constructor.
pub open spec fn is_ctor_val(m: Bytes, v: LeanObj) -> bool {
    &&& has_slots(m, v, 5)
    &&& is_cv(m, slot(m, v, 0))
    &&& is_name(m, slot(m, v, 1))
}

/// Whether `o` is live, as a recursor's rule for one constructor.
pub open spec fn is_rule(m: Bytes, o: LeanObj) -> bool {
    &&& has_slots(m, o, 3)
    &&& is_name(m, slot(m, o, 0))
    &&& is_expr(m, slot(m, o, 2))
}

/// Whether all of `os` are live, as rules of a recursor.
pub open spec fn are_rules(m: Bytes, os: Seq<LeanObj>) -> bool {
    forall|i: int| 0 <= i < os.len() ==> is_rule(m, #[trigger] os[i])
}

/// Whether `v` is live, as a recursor.
pub open spec fn is_rec_val(m: Bytes, v: LeanObj) -> bool {
    &&& has_slots(m, v, 7)
    &&& is_cv(m, slot(m, v, 0))
    &&& is_names(m, slot(m, v, 1))
    &&& is_list(m, slot(m, v, 6))
    &&& are_rules(m, list_of(m, slot(m, v, 6)))
    &&& has_scalars(m, v, RECURSOR_K_OFFSET as int, 1)
}

/// What decoding the axiom `v` comes to.
pub open spec fn decoded_axiom(
    m: Bytes,
    d: DagModel,
    nat_ext: bool,
    str_ext: bool,
    v: LeanObj,
) -> Outcome<DeclarModel> {
    match decoded_cv(m, d, nat_ext, str_ext, slot(m, v, 0)) {
        (d1, Ok(info)) => (d1, Ok(DeclarModel::Axiom { info })),
        (d1, Err(e)) => (d1, Err(e)),
    }
}

/// What decoding the quotient constant `v` comes to.
pub open spec fn decoded_quot(
    m: Bytes,
    d: DagModel,
    nat_ext: bool,
    str_ext: bool,
    v: LeanObj,
) -> Outcome<DeclarModel> {
    match decoded_cv(m, d, nat_ext, str_ext, slot(m, v, 0)) {
        (d1, Ok(info)) => (d1, Ok(DeclarModel::Quot { info })),
        (d1, Err(e)) => (d1, Err(e)),
    }
}

/// What decoding the constant `v` and its value comes to.
pub open spec fn decoded_valued(
    m: Bytes,
    d: DagModel,
    nat_ext: bool,
    str_ext: bool,
    v: LeanObj,
) -> Outcome<(DeclarInfo, ExprPtr)> {
    match decoded_cv(m, d, nat_ext, str_ext, slot(m, v, 0)) {
        (d1, Ok(info)) => match add_expr(d1, nat_ext, str_ext, expr_of(m, slot(m, v, 1))) {
            (d2, Ok(val)) => (d2, Ok((info, val))),
            (d2, Err(e)) => (d2, Err(e)),
        },
        (d1, Err(e)) => (d1, Err(e)),
    }
}

/// What decoding the definition `v` comes to.
pub open spec fn decoded_def(
    m: Bytes,
    d: DagModel,
    nat_ext: bool,
    str_ext: bool,
    v: LeanObj,
) -> Outcome<DeclarModel> {
    match decoded_valued(m, d, nat_ext, str_ext, v) {
        (d1, Ok((info, val))) => (
            d1,
            Ok(DeclarModel::Definition { info, val, hint: hint_of(m, slot(m, v, 2)) }),
        ),
        (d1, Err(e)) => (d1, Err(e)),
    }
}

/// What decoding the theorem `v` comes to.
pub open spec fn decoded_thm(
    m: Bytes,
    d: DagModel,
    nat_ext: bool,
    str_ext: bool,
    v: LeanObj,
) -> Outcome<DeclarModel> {
    match decoded_valued(m, d, nat_ext, str_ext, v) {
        (d1, Ok((info, val))) => (d1, Ok(DeclarModel::Theorem { info, val })),
        (d1, Err(e)) => (d1, Err(e)),
    }
}

/// What decoding the opaque constant `v` comes to.
pub open spec fn decoded_opaque(
    m: Bytes,
    d: DagModel,
    nat_ext: bool,
    str_ext: bool,
    v: LeanObj,
) -> Outcome<DeclarModel> {
    match decoded_valued(m, d, nat_ext, str_ext, v) {
        (d1, Ok((info, val))) => (d1, Ok(DeclarModel::Opaque { info, val })),
        (d1, Err(e)) => (d1, Err(e)),
    }
}

/// Whether the inductive type `v` is nested: whether its count of nested
/// occurrences, small or big, is other than a small zero.
pub open spec fn nested(m: Bytes, v: LeanObj) -> bool {
    let n = slot(m, v, 5);
    !(scalar(n) && unboxed(n) == 0)
}

/// What decoding the inductive type `v` comes to.
pub open spec fn decoded_inductive(
    m: Bytes,
    d: DagModel,
    nat_ext: bool,
    str_ext: bool,
    v: LeanObj,
) -> Outcome<DeclarModel> {
    match decoded_cv(m, d, nat_ext, str_ext, slot(m, v, 0)) {
        (d1, Ok(info)) => match u16_field(m, v, 1) {
            Ok(num_params) => match u16_field(m, v, 2) {
                Ok(num_indices) => match add_names(d1, names_of(m, slot(m, v, 3))) {
                    (d2, Ok(all_ind_names)) => match add_names(d2, names_of(m, slot(m, v, 4))) {
                        (d3, Ok(all_ctor_names)) => (
                            d3,
                            Ok(
                                DeclarModel::Inductive {
                                    info,
                                    is_recursive: scalar_u8(m, v, INDUCTIVE_REC_OFFSET as int)
                                        != 0,
                                    is_nested: nested(m, v),
                                    num_params,
                                    num_indices,
                                    all_ind_names,
                                    all_ctor_names,
                                },
                            ),
                        ),
                        (d3, Err(e)) => (d3, Err(e)),
                    },
                    (d2, Err(e)) => (d2, Err(e)),
                },
                Err(e) => (d1, Err(e)),
            },
            Err(e) => (d1, Err(e)),
        },
        (d1, Err(e)) => (d1, Err(e)),
    }
}

/// What decoding the constructor `v` comes to.
pub open spec fn decoded_ctor(
    m: Bytes,
    d: DagModel,
    nat_ext: bool,
    str_ext: bool,
    v: LeanObj,
) -> Outcome<DeclarModel> {
    match decoded_cv(m, d, nat_ext, str_ext, slot(m, v, 0)) {
        (d1, Ok(info)) => match add_name(d1, name_of(m, slot(m, v, 1))) {
            (d2, Ok(inductive_name)) => match u16_field(m, v, 2) {
                Ok(ctor_idx) => match u16_field(m, v, 3) {
                    Ok(num_params) => match u16_field(m, v, 4) {
                        Ok(num_fields) => (
                            d2,
                            Ok(
                                DeclarModel::Constructor(
                                    ConstructorData {
                                        info,
                                        inductive_name,
                                        ctor_idx,
                                        num_params,
                                        num_fields,
                                    },
                                ),
                            ),
                        ),
                        Err(e) => (d2, Err(e)),
                    },
                    Err(e) => (d2, Err(e)),
                },
                Err(e) => (d2, Err(e)),
            },
            (d2, Err(e)) => (d2, Err(e)),
        },
        (d1, Err(e)) => (d1, Err(e)),
    }
}

/// What decoding one rule of a recursor comes to.
pub open spec fn decoded_rule(
    m: Bytes,
    d: DagModel,
    nat_ext: bool,
    str_ext: bool,
    o: LeanObj,
) -> Outcome<RecRule> {
    match add_name(d, name_of(m, slot(m, o, 0))) {
        (d1, Ok(ctor_name)) => match u16_field(m, o, 1) {
            Ok(n) => match add_expr(d1, nat_ext, str_ext, expr_of(m, slot(m, o, 2))) {
                (d2, Ok(val)) => (
                    d2,
                    Ok(RecRule { ctor_name, ctor_telescope_size_wo_params: n, val }),
                ),
                (d2, Err(e)) => (d2, Err(e)),
            },
            Err(e) => (d1, Err(e)),
        },
        (d1, Err(e)) => (d1, Err(e)),
    }
}

/// What decoding the rules `os` one after the other, up to the first error,
/// comes to.
pub open spec fn decoded_rules(
    m: Bytes,
    d: DagModel,
    nat_ext: bool,
    str_ext: bool,
    os: Seq<LeanObj>,
) -> Outcome<Seq<RecRule>>
    decreases os.len(),
{
    if os.len() == 0 {
        (d, Ok(seq![]))
    } else {
        match decoded_rules(m, d, nat_ext, str_ext, os.drop_last()) {
            (d1, Ok(rs)) => match decoded_rule(m, d1, nat_ext, str_ext, os.last()) {
                (d2, Ok(r)) => (d2, Ok(rs.push(r))),
                (d2, Err(e)) => (d2, Err(e)),
            },
            (d1, Err(e)) => (d1, Err(e)),
        }
    }
}

/// What decoding the recursor `v` comes to.
pub open spec fn decoded_rec(
    m: Bytes,
    d: DagModel,
    nat_ext: bool,
    str_ext: bool,
    v: LeanObj,
) -> Outcome<DeclarModel> {
    match decoded_cv(m, d, nat_ext, str_ext, slot(m, v, 0)) {
        (d1, Ok(info)) => match add_names(d1, names_of(m, slot(m, v, 1))) {
            (d2, Ok(all_inductives)) => match u16_field(m, v, 2) {
                Ok(num_params) => match u16_field(m, v, 3) {
                    Ok(num_indices) => match u16_field(m, v, 4) {
                        Ok(num_motives) => match u16_field(m, v, 5) {
                            Ok(num_minors) => match decoded_rules(
                                m,
                                d2,
                                nat_ext,
                                str_ext,
                                list_of(m, slot(m, v, 6)),
                            ) {
                                (d3, Ok(rec_rules)) => (
                                    d3,
                                    Ok(
                                        DeclarModel::Recursor {
                                            info,
                                            all_inductives,
                                            num_params,
                                            num_indices,
                                            num_motives,
                                            num_minors,
                                            rec_rules,
                                            is_k: scalar_u8(m, v, RECURSOR_K_OFFSET as int) != 0,
                                        },
                                    ),
                                ),
                                (d3, Err(e)) => (d3, Err(e)),
                            },
                            Err(e) => (d2, Err(e)),
                        },
                        Err(e) => (d2, Err(e)),
                    },
                    Err(e) => (d2, Err(e)),
                },
                Err(e) => (d2, Err(e)),
            },
            (d2, Err(e)) => (d2, Err(e)),
        },
        (d1, Err(e)) => (d1, Err(e)),
    }
}

/// Decodes an axiom.
fn decode_axiom_val<'m, 'd, M: Memory>(imp: &mut Importer<'m, 'd, M>, v: LeanObj) -> (r: Result<
    Declar,
    ImportError,
>)
    requires
        old(imp).wf(),
        is_bare_val(old(imp).bytes(), v),
    ensures
        final(imp).wf(),
        final(imp).same_setup(old(imp)),
        *final(final(imp).dag) == *final(old(imp).dag),
        extends(old(imp).dag@, final(imp).dag@),
        ({
            let out = decoded_axiom(
                old(imp).bytes(),
                old(imp).dag@,
                old(imp).nat_extension,
                old(imp).string_extension,
                v,
            );
            &&& final(imp).dag@ == out.0
            &&& agrees_declar(r, out.1)
        }),
        r matches Ok(x) ==> declar_ok(final(imp).dag@, x@),
{
    let ghost m = imp.bytes();
    assert(has_slot(m, v, 0));
    match decode_cv(imp, ctor_get(imp.mem, v, 0)) {
        Ok(info) => Ok(Declar::Axiom { info }),
        Err(e) => Err(e),
    }
}

/// Decodes a constant and its value.
fn decode_valued<'m, 'd, M: Memory>(imp: &mut Importer<'m, 'd, M>, v: LeanObj) -> (r: Result<
    (DeclarInfo, ExprPtr),
    ImportError,
>)
    requires
        old(imp).wf(),
        is_valued(old(imp).bytes(), v),
    ensures
        final(imp).wf(),
        final(imp).same_setup(old(imp)),
        *final(final(imp).dag) == *final(old(imp).dag),
        extends(old(imp).dag@, final(imp).dag@),
        ({
            let out = decoded_valued(
                old(imp).bytes(),
                old(imp).dag@,
                old(imp).nat_extension,
                old(imp).string_extension,
                v,
            );
            &&& final(imp).dag@ == out.0
            &&& agrees(r, out.1)
        }),
        r matches Ok((info, val)) ==> info_ok(final(imp).dag@, info) && valid_expr(
            final(imp).dag@,
            val,
        ),
{
    let ghost m = imp.bytes();
    let ghost d = imp.dag@;
    assert(has_slot(m, v, 0) && has_slot(m, v, 1));
    let info = match decode_cv(imp, ctor_get(imp.mem, v, 0)) {
        Ok(x) => x,
        Err(e) => return Err(e),
    };
    let ghost d1 = imp.dag@;
    let val = match imp.import_expr(Term(ctor_get(imp.mem, v, 1))) {
        Ok(x) => x,
        Err(e) => {
            proof {
                lemma_extends_trans(d, d1, imp.dag@);
            }
            return Err(e);
        },
    };
    let ghost d2 = imp.dag@;
    proof {
        lemma_extends_trans(d, d1, d2);
        lemma_valid_extends(d1, d2);
    }
    Ok((info, val))
}

/// Decodes a definition.
fn decode_def_val<'m, 'd, M: Memory>(imp: &mut Importer<'m, 'd, M>, v: LeanObj) -> (r: Result<
    Declar,
    ImportError,
>)
    requires
        old(imp).wf(),
        is_def_val(old(imp).bytes(), v),
    ensures
        final(imp).wf(),
        final(imp).same_setup(old(imp)),
        *final(final(imp).dag) == *final(old(imp).dag),
        extends(old(imp).dag@, final(imp).dag@),
        ({
            let out = decoded_def(
                old(imp).bytes(),
                old(imp).dag@,
                old(imp).nat_extension,
                old(imp).string_extension,
                v,
            );
            &&& final(imp).dag@ == out.0
            &&& agrees_declar(r, out.1)
        }),
        r matches Ok(x) ==> declar_ok(final(imp).dag@, x@),
{
    match decode_valued(imp, v) {
        Ok((info, val)) => {
            assert(has_slot(imp.bytes(), v, 2));
            let hint = decode_hint(imp.mem, ctor_get(imp.mem, v, 2));
            Ok(Declar::Definition { info, val, hint })
        },
        Err(e) => Err(e),
    }
}

/// Decodes a theorem.
fn decode_thm_val<'m, 'd, M: Memory>(imp: &mut Importer<'m, 'd, M>, v: LeanObj) -> (r: Result<
    Declar,
    ImportError,
>)
    requires
        old(imp).wf(),
        is_valued(old(imp).bytes(), v),
    ensures
        final(imp).wf(),
        final(imp).same_setup(old(imp)),
        *final(final(imp).dag) == *final(old(imp).dag),
        extends(old(imp).dag@, final(imp).dag@),
        ({
            let out = decoded_thm(
                old(imp).bytes(),
                old(imp).dag@,
                old(imp).nat_extension,
                old(imp).string_extension,
                v,
            );
            &&& final(imp).dag@ == out.0
            &&& agrees_declar(r, out.1)
        }),
        r matches Ok(x) ==> declar_ok(final(imp).dag@, x@),
{
    match decode_valued(imp, v) {
        Ok((info, val)) => Ok(Declar::Theorem { info, val }),
        Err(e) => Err(e),
    }
}

/// Decodes an opaque constant.
fn decode_opaque_val<'m, 'd, M: Memory>(imp: &mut Importer<'m, 'd, M>, v: LeanObj) -> (r: Result<
    Declar,
    ImportError,
>)
    requires
        old(imp).wf(),
        is_valued(old(imp).bytes(), v),
    ensures
        final(imp).wf(),
        final(imp).same_setup(old(imp)),
        *final(final(imp).dag) == *final(old(imp).dag),
        extends(old(imp).dag@, final(imp).dag@),
        ({
            let out = decoded_opaque(
                old(imp).bytes(),
                old(imp).dag@,
                old(imp).nat_extension,
                old(imp).string_extension,
                v,
            );
            &&& final(imp).dag@ == out.0
            &&& agrees_declar(r, out.1)
        }),
        r matches Ok(x) ==> declar_ok(final(imp).dag@, x@),
{
    match decode_valued(imp, v) {
        Ok((info, val)) => Ok(Declar::Opaque { info, val }),
        Err(e) => Err(e),
    }
}

/// Decodes a quotient constant.
fn decode_quot_val<'m, 'd, M: Memory>(imp: &mut Importer<'m, 'd, M>, v: LeanObj) -> (r: Result<
    Declar,
    ImportError,
>)
    requires
        old(imp).wf(),
        is_bare_val(old(imp).bytes(), v),
    ensures
        final(imp).wf(),
        final(imp).same_setup(old(imp)),
        *final(final(imp).dag) == *final(old(imp).dag),
        extends(old(imp).dag@, final(imp).dag@),
        ({
            let out = decoded_quot(
                old(imp).bytes(),
                old(imp).dag@,
                old(imp).nat_extension,
                old(imp).string_extension,
                v,
            );
            &&& final(imp).dag@ == out.0
            &&& agrees_declar(r, out.1)
        }),
        r matches Ok(x) ==> declar_ok(final(imp).dag@, x@),
{
    let ghost m = imp.bytes();
    assert(has_slot(m, v, 0));
    match decode_cv(imp, ctor_get(imp.mem, v, 0)) {
        Ok(info) => Ok(Declar::Quot { info }),
        Err(e) => Err(e),
    }
}

/// Decodes an inductive type.
fn decode_inductive_val<'m, 'd, M: Memory>(imp: &mut Importer<'m, 'd, M>, v: LeanObj) -> (r: Result<
    Declar,
    ImportError,
>)
    requires
        old(imp).wf(),
        is_inductive_val(old(imp).bytes(), v),
    ensures
        final(imp).wf(),
        final(imp).same_setup(old(imp)),
        *final(final(imp).dag) == *final(old(imp).dag),
        extends(old(imp).dag@, final(imp).dag@),
        ({
            let out = decoded_inductive(
                old(imp).bytes(),
                old(imp).dag@,
                old(imp).nat_extension,
                old(imp).string_extension,
                v,
            );
            &&& final(imp).dag@ == out.0
            &&& agrees_declar(r, out.1)
        }),
        r matches Ok(x) ==> declar_ok(final(imp).dag@, x@),
{
    let ghost m = imp.bytes();
    let ghost d = imp.dag@;
    assert(has_slot(m, v, 0) && has_slot(m, v, 1) && has_slot(m, v, 2) && has_slot(m, v, 3)
        && has_slot(m, v, 4) && has_slot(m, v, 5));
    let info = match decode_cv(imp, ctor_get(imp.mem, v, 0)) {
        Ok(x) => x,
        Err(e) => return Err(e),
    };
    let ghost d1 = imp.dag@;
    let num_params: u16 = match nat_u16(imp.mem, v, 1) {
        Ok(x) => x,
        Err(e) => return Err(e),
    };
    let num_indices: u16 = match nat_u16(imp.mem, v, 2) {
        Ok(x) => x,
        Err(e) => return Err(e),
    };
    let all_ind_names = match import_names(imp, ctor_get(imp.mem, v, 3)) {
        Ok(x) => x,
        Err(e) => {
            proof {
                lemma_extends_trans(d, d1, imp.dag@);
            }
            return Err(e);
        },
    };
    let ghost d2 = imp.dag@;
    proof {
        lemma_extends_trans(d, d1, d2);
        lemma_valid_extends(d1, d2);
    }
    let all_ctor_names = match import_names(imp, ctor_get(imp.mem, v, 4)) {
        Ok(x) => x,
        Err(e) => {
            proof {
                lemma_extends_trans(d, d2, imp.dag@);
            }
            return Err(e);
        },
    };
    let ghost d3 = imp.dag@;
    proof {
        lemma_extends_trans(d, d2, d3);
        lemma_valid_extends(d2, d3);
    }
    let num_nested: u64 = match nat_as_usize(ctor_get(imp.mem, v, 5)) {
        Some(n) => n,
        None => 1,
    };
    let is_recursive = ctor_get_uint8(imp.mem, v, INDUCTIVE_REC_OFFSET) != 0;
    Ok(
        Declar::Inductive(
            InductiveData {
                info,
                is_recursive,
                is_nested: num_nested != 0,
                num_params,
                num_indices,
                all_ind_names,
                all_ctor_names,
            },
        ),
    )
}

/// Decodes a constructor.
fn decode_ctor_val<'m, 'd, M: Memory>(imp: &mut Importer<'m, 'd, M>, v: LeanObj) -> (r: Result<
    Declar,
    ImportError,
>)
    requires
        old(imp).wf(),
        is_ctor_val(old(imp).bytes(), v),
    ensures
        final(imp).wf(),
        final(imp).same_setup(old(imp)),
        *final(final(imp).dag) == *final(old(imp).dag),
        extends(old(imp).dag@, final(imp).dag@),
        ({
            let out = decoded_ctor(
                old(imp).bytes(),
                old(imp).dag@,
                old(imp).nat_extension,
                old(imp).string_extension,
                v,
            );
            &&& final(imp).dag@ == out.0
            &&& agrees_declar(r, out.1)
        }),
        r matches Ok(x) ==> declar_ok(final(imp).dag@, x@),
{
    let ghost m = imp.bytes();
    let ghost d = imp.dag@;
    assert(has_slot(m, v, 0) && has_slot(m, v, 1) && has_slot(m, v, 2) && has_slot(m, v, 3)
        && has_slot(m, v, 4));
    let info = match decode_cv(imp, ctor_get(imp.mem, v, 0)) {
        Ok(x) => x,
        Err(e) => return Err(e),
    };
    let ghost d1 = imp.dag@;
    let inductive_name = match imp.import_name(Name(ctor_get(imp.mem, v, 1))) {
        Ok(x) => x,
        Err(e) => {
            proof {
                lemma_extends_trans(d, d1, imp.dag@);
            }
            return Err(e);
        },
    };
    let ghost d2 = imp.dag@;
    proof {
        lemma_extends_trans(d, d1, d2);
        lemma_valid_extends(d1, d2);
    }
    let ctor_idx: u16 = match nat_u16(imp.mem, v, 2) {
        Ok(x) => x,
        Err(e) => return Err(e),
    };
    let num_params: u16 = match nat_u16(imp.mem, v, 3) {
        Ok(x) => x,
        Err(e) => return Err(e),
    };
    let num_fields: u16 = match nat_u16(imp.mem, v, 4) {
        Ok(x) => x,
        Err(e) => return Err(e),
    };
    Ok(
        Declar::Constructor(
            ConstructorData { info, inductive_name, ctor_idx, num_params, num_fields },
        ),
    )
}

/// Decodes a recursor's rule for one constructor.
fn decode_rule<'m, 'd, M: Memory>(imp: &mut Importer<'m, 'd, M>, o: LeanObj) -> (r: Result<
    RecRule,
    ImportError,
>)
    requires
        old(imp).wf(),
        is_rule(old(imp).bytes(), o),
    ensures
        final(imp).wf(),
        final(imp).same_setup(old(imp)),
        *final(final(imp).dag) == *final(old(imp).dag),
        extends(old(imp).dag@, final(imp).dag@),
        ({
            let out = decoded_rule(
                old(imp).bytes(),
                old(imp).dag@,
                old(imp).nat_extension,
                old(imp).string_extension,
                o,
            );
            &&& final(imp).dag@ == out.0
            &&& agrees(r, out.1)
        }),
        r matches Ok(x) ==> valid_name(final(imp).dag@, x.ctor_name) && valid_expr(
            final(imp).dag@,
            x.val,
        ),
{
    let ghost m = imp.bytes();
    let ghost d = imp.dag@;
    assert(has_slot(m, o, 0) && has_slot(m, o, 1) && has_slot(m, o, 2));
    let ctor_name = match imp.import_name(Name(ctor_get(imp.mem, o, 0))) {
        Ok(x) => x,
        Err(e) => return Err(e),
    };
    let ghost d1 = imp.dag@;
    let nfields: u16 = match nat_u16(imp.mem, o, 1) {
        Ok(x) => x,
        Err(e) => return Err(e),
    };
    let val = match imp.import_expr(Term(ctor_get(imp.mem, o, 2))) {
        Ok(x) => x,
        Err(e) => {
            proof {
                lemma_extends_trans(d, d1, imp.dag@);
            }
            return Err(e);
        },
    };
    let ghost d2 = imp.dag@;
    proof {
        lemma_extends_trans(d, d1, d2);
        lemma_valid_extends(d1, d2);
    }
    Ok(RecRule { ctor_name, ctor_telescope_size_wo_params: nfields, val })
}

/// Decoding that stops in the first `n` rules does not reach the others.
proof fn lemma_rules_stop(
    m: Bytes,
    d: DagModel,
    nat_ext: bool,
    str_ext: bool,
    os: Seq<LeanObj>,
    n: int,
)
    requires
        0 <= n <= os.len(),
        decoded_rules(m, d, nat_ext, str_ext, os.take(n)).1 is Err,
    ensures
        decoded_rules(m, d, nat_ext, str_ext, os) == decoded_rules(
            m,
            d,
            nat_ext,
            str_ext,
            os.take(n),
        ),
    decreases os.len(),
{
    if n == os.len() {
        assert(os.take(n) =~= os);
    } else {
        assert(os.drop_last().take(n) =~= os.take(n));
        lemma_rules_stop(m, d, nat_ext, str_ext, os.drop_last(), n);
    }
}

/// Decodes the rules of a recursor.
fn decode_rules<'m, 'd, M: Memory>(
    imp: &mut Importer<'m, 'd, M>,
    objs: &Vec<LeanObj>,
) -> (r: Result<Vec<RecRule>, ImportError>)
    requires
        old(imp).wf(),
        are_rules(old(imp).bytes(), objs@),
    ensures
        final(imp).wf(),
        final(imp).same_setup(old(imp)),
        *final(final(imp).dag) == *final(old(imp).dag),
        extends(old(imp).dag@, final(imp).dag@),
        ({
            let out = decoded_rules(
                old(imp).bytes(),
                old(imp).dag@,
                old(imp).nat_extension,
                old(imp).string_extension,
                objs@,
            );
            &&& final(imp).dag@ == out.0
            &&& agrees_seq(r, out.1)
        }),
        r matches Ok(rs) ==> rules_ok(final(imp).dag@, rs@),
{
    let ghost m = imp.bytes();
    let ghost d = imp.dag@;
    let ghost ne = imp.nat_extension;
    let ghost se = imp.string_extension;
    let mut out: Vec<RecRule> = Vec::new();
    let mut i: usize = 0;
    proof {
        lemma_extends_refl(d);
    }
    while i < objs.len()
        invariant
            i <= objs.len(),
            imp.wf(),
            imp.same_setup(old(imp)),
            *final(imp.dag) == *final(old(imp).dag),
            m == imp.bytes(),
            d == old(imp).dag@,
            ne == imp.nat_extension,
            se == imp.string_extension,
            extends(d, imp.dag@),
            are_rules(m, objs@),
            decoded_rules(m, d, ne, se, objs@.take(i as int)) == (
                imp.dag@,
                Ok::<Seq<RecRule>, Seq<char>>(out@),
            ),
            rules_ok(imp.dag@, out@),
        decreases objs.len() - i,
    {
        let ghost d1 = imp.dag@;
        proof {
            assert(objs@.take(i + 1).drop_last() =~= objs@.take(i as int));
            assert(objs@.take(i + 1).last() == objs@[i as int]);
        }
        match decode_rule(imp, objs[i]) {
            Ok(x) => {
                out.push(x);
            },
            Err(e) => {
                proof {
                    lemma_extends_trans(d, d1, imp.dag@);
                    lemma_rules_stop(m, d, ne, se, objs@, i + 1);
                }
                return Err(e);
            },
        }
        proof {
            lemma_extends_trans(d, d1, imp.dag@);
            lemma_valid_extends(d1, imp.dag@);
        }
        i = i + 1;
    }
    proof {
        assert(objs@.take(i as int) =~= objs@);
    }
    Ok(out)
}

/// Decodes a recursor.
fn decode_rec_val<'m, 'd, M: Memory>(imp: &mut Importer<'m, 'd, M>, v: LeanObj) -> (r: Result<
    Declar,
    ImportError,
>)
    requires
        old(imp).wf(),
        is_rec_val(old(imp).bytes(), v),
    ensures
        final(imp).wf(),
        final(imp).same_setup(old(imp)),
        *final(final(imp).dag) == *final(old(imp).dag),
        extends(old(imp).dag@, final(imp).dag@),
        ({
            let out = decoded_rec(
                old(imp).bytes(),
                old(imp).dag@,
                old(imp).nat_extension,
                old(imp).string_extension,
                v,
            );
            &&& final(imp).dag@ == out.0
            &&& agrees_declar(r, out.1)
        }),
        r matches Ok(x) ==> declar_ok(final(imp).dag@, x@),
{
    let ghost m = imp.bytes();
    let ghost d = imp.dag@;
    assert(has_slot(m, v, 0) && has_slot(m, v, 1) && has_slot(m, v, 2) && has_slot(m, v, 3)
        && has_slot(m, v, 4) && has_slot(m, v, 5) && has_slot(m, v, 6));
    let info = match decode_cv(imp, ctor_get(imp.mem, v, 0)) {
        Ok(x) => x,
        Err(e) => return Err(e),
    };
    let ghost d1 = imp.dag@;
    let all_inductives = match import_names(imp, ctor_get(imp.mem, v, 1)) {
        Ok(x) => x,
        Err(e) => {
            proof {
                lemma_extends_trans(d, d1, imp.dag@);
            }
            return Err(e);
        },
    };
    let ghost d2 = imp.dag@;
    proof {
        lemma_extends_trans(d, d1, d2);
        lemma_valid_extends(d1, d2);
    }
    let num_params: u16 = match nat_u16(imp.mem, v, 2) {
        Ok(x) => x,
        Err(e) => return Err(e),
    };
    let num_indices: u16 = match nat_u16(imp.mem, v, 3) {
        Ok(x) => x,
        Err(e) => return Err(e),
    };
    let num_motives: u16 = match nat_u16(imp.mem, v, 4) {
        Ok(x) => x,
        Err(e) => return Err(e),
    };
    let num_minors: u16 = match nat_u16(imp.mem, v, 5) {
        Ok(x) => x,
        Err(e) => return Err(e),
    };
    let rules = list_objs(imp.mem, ctor_get(imp.mem, v, 6));
    let rec_rules = match decode_rules(imp, &rules) {
        Ok(x) => x,
        Err(e) => {
            proof {
                lemma_extends_trans(d, d2, imp.dag@);
            }
            return Err(e);
        },
    };
    let ghost d3 = imp.dag@;
    proof {
        lemma_extends_trans(d, d2, d3);
        lemma_valid_extends(d2, d3);
    }
    let is_k = ctor_get_uint8(imp.mem, v, RECURSOR_K_OFFSET) != 0;
    Ok(
        Declar::Recursor(
            RecursorData {
                info,
                all_inductives,
                num_params,
                num_indices,
                num_motives,
                num_minors,
                rec_rules,
                is_k,
            },
        ),
    )
}

/// Whether `ci` is a live constant info.
pub open spec fn is_constant_info(m: Bytes, ci: LeanObj) -> bool {
    let tag = tag_of(m, ci);
    let v = slot(m, ci, 0);
    &&& has_tag(m, ci)
    &&& tag <= 7 ==> has_slot(m, ci, 0)
    &&& tag == 0 || tag == 4 ==> is_bare_val(m, v)
    &&& tag == 1 ==> is_def_val(m, v)
    &&& tag == 2 || tag == 3 ==> is_valued(m, v)
    &&& tag == 5 ==> is_inductive_val(m, v)
    &&& tag == 6 ==> is_ctor_val(m, v)
    &&& tag == 7 ==> is_rec_val(m, v)
}

/// What decoding the constant info `ci` comes to.
pub open spec fn decoded_constant_info(
    m: Bytes,
    d: DagModel,
    nat_ext: bool,
    str_ext: bool,
    ci: LeanObj,
) -> Outcome<DeclarModel> {
    let tag = tag_of(m, ci);
    let v = slot(m, ci, 0);
    if tag == 0 {
        decoded_axiom(m, d, nat_ext, str_ext, v)
    } else if tag == 1 {
        decoded_def(m, d, nat_ext, str_ext, v)
    } else if tag == 2 {
        decoded_thm(m, d, nat_ext, str_ext, v)
    } else if tag == 3 {
        decoded_opaque(m, d, nat_ext, str_ext, v)
    } else if tag == 4 {
        decoded_quot(m, d, nat_ext, str_ext, v)
    } else if tag == 5 {
        decoded_inductive(m, d, nat_ext, str_ext, v)
    } else if tag == 6 {
        decoded_ctor(m, d, nat_ext, str_ext, v)
    } else if tag == 7 {
        decoded_rec(m, d, nat_ext, str_ext, v)
    } else {
        (d, Err("unknown ConstantInfo tag "@ + digits(tag as nat, 10)))
    }
}

/// Decodes a constant info.
pub fn decode_constant_info<'m, 'd, M: Memory>(
    imp: &mut Importer<'m, 'd, M>,
    ci: LeanObj,
) -> (r: Result<Declar, ImportError>)
    requires
        old(imp).wf(),
        is_constant_info(old(imp).bytes(), ci),
    ensures
        final(imp).wf(),
        final(imp).same_setup(old(imp)),
        *final(final(imp).dag) == *final(old(imp).dag),
        extends(old(imp).dag@, final(imp).dag@),
        ({
            let out = decoded_constant_info(
                old(imp).bytes(),
                old(imp).dag@,
                old(imp).nat_extension,
                old(imp).string_extension,
                ci,
            );
            &&& final(imp).dag@ == out.0
            &&& agrees_declar(r, out.1)
        }),
        r matches Ok(x) ==> declar_ok(final(imp).dag@, x@),
{
    proof {
        lemma_extends_refl(imp.dag@);
    }
    match ptr_tag(imp.mem, ci) {
        0 => decode_axiom_val(imp, ctor_get(imp.mem, ci, 0)),
        1 => decode_def_val(imp, ctor_get(imp.mem, ci, 0)),
        2 => decode_thm_val(imp, ctor_get(imp.mem, ci, 0)),
        3 => decode_opaque_val(imp, ctor_get(imp.mem, ci, 0)),
        4 => decode_quot_val(imp, ctor_get(imp.mem, ci, 0)),
        5 => decode_inductive_val(imp, ctor_get(imp.mem, ci, 0)),
        6 => decode_ctor_val(imp, ctor_get(imp.mem, ci, 0)),
        7 => decode_rec_val(imp, ctor_get(imp.mem, ci, 0)),
        t => {
            let mut msg = "unknown ConstantInfo tag ".to_owned();
            msg.append(decimal(t as u64).as_str());
            Err(ImportError(msg))
        },
    }
}

// ---------------------------------------------------------------------------
// Declarations
// ---------------------------------------------------------------------------

/// What becomes of a declaration that the host asks to add: it is checked here,
/// or it is left to the builtin kernel, which generates the recursors of
/// inductive types.
#[derive(Debug, Clone)]
pub enum Decoded {
    Check(Declar),
    Delegate,
}

/// Whether `decl` is a live declaration. The declaration of the quotient
/// constants is a tagged scalar.
pub open spec fn is_declaration(m: Bytes, decl: LeanObj) -> bool {
    let tag = tag_of(m, decl);
    let v = slot(m, decl, 0);
    scalar(decl) || {
        &&& has_tag(m, decl)
        &&& tag <= 3 ==> has_slot(m, decl, 0)
        &&& tag == 0 ==> is_bare_val(m, v)
        &&& tag == 1 ==> is_def_val(m, v)
        &&& tag == 2 || tag == 3 ==> is_valued(m, v)
    }
}

/// Whether the declaration `decl` is one that is checked here: an axiom, a
/// definition, a theorem or an opaque constant.
pub open spec fn checked_here(m: Bytes, decl: LeanObj) -> bool {
    !scalar(decl) && tag_of(m, decl) <= 3
}

/// What decoding the declaration `decl`, which is checked here, comes to.
pub open spec fn decoded_declaration(
    m: Bytes,
    d: DagModel,
    nat_ext: bool,
    str_ext: bool,
    decl: LeanObj,
) -> Outcome<DeclarModel> {
    let tag = tag_of(m, decl);
    let v = slot(m, decl, 0);
    if tag == 0 {
        decoded_axiom(m, d, nat_ext, str_ext, v)
    } else if tag == 1 {
        decoded_def(m, d, nat_ext, str_ext, v)
    } else if tag == 2 {
        decoded_thm(m, d, nat_ext, str_ext, v)
    } else {
        decoded_opaque(m, d, nat_ext, str_ext, v)
    }
}

/// Decodes a declaration.
pub fn decode_declaration<'m, 'd, M: Memory>(
    imp: &mut Importer<'m, 'd, M>,
    decl: LeanObj,
) -> (r: Result<Decoded, ImportError>)
    requires
        old(imp).wf(),
        is_declaration(old(imp).bytes(), decl),
    ensures
        final(imp).wf(),
        final(imp).same_setup(old(imp)),
        *final(final(imp).dag) == *final(old(imp).dag),
        extends(old(imp).dag@, final(imp).dag@),
        !checked_here(old(imp).bytes(), decl) ==> r == Ok::<Decoded, ImportError>(Decoded::Delegate)
            && final(imp).dag@ == old(imp).dag@,
        checked_here(old(imp).bytes(), decl) ==> {
            let out = decoded_declaration(
                old(imp).bytes(),
                old(imp).dag@,
                old(imp).nat_extension,
                old(imp).string_extension,
                decl,
            );
            &&& final(imp).dag@ == out.0
            &&& match r {
                Ok(Decoded::Check(x)) => out.1 == Ok::<DeclarModel, Seq<char>>(x@),
                Ok(Decoded::Delegate) => false,
                Err(e) => out.1 == Err::<DeclarModel, Seq<char>>(e.0@),
            }
        },
        r matches Ok(Decoded::Check(x)) ==> declar_ok(final(imp).dag@, x@),
{
    proof {
        lemma_extends_refl(imp.dag@);
    }
    if is_scalar(decl) {
        return Ok(Decoded::Delegate);
    }
    let x = match ptr_tag(imp.mem, decl) {
        0 => decode_axiom_val(imp, ctor_get(imp.mem, decl, 0)),
        1 => decode_def_val(imp, ctor_get(imp.mem, decl, 0)),
        2 => decode_thm_val(imp, ctor_get(imp.mem, decl, 0)),
        3 => decode_opaque_val(imp, ctor_get(imp.mem, decl, 0)),
        _ => return Ok(Decoded::Delegate),
    };
    match x {
        Ok(x) => Ok(Decoded::Check(x)),
        Err(e) => Err(e),
    }
}

// ---------------------------------------------------------------------------
// Dependencies
// ---------------------------------------------------------------------------

/// Pushes what the expression `e` holds, and appends to `out` the constant
/// that it names itself.
fn expand<M: Memory>(
    mem: &M,
    e: LeanObj,
    stack: &mut Vec<LeanObj>,
    out: &mut Vec<LeanObj>,
    projs: bool,
)
    requires
        is_expr(mem.bytes(), e),
    ensures
        final(stack)@ == old(stack)@ + children(mem.bytes(), e),
        final(out)@ == (if naming(mem.bytes(), e, projs) {
            old(out)@.push(slot(mem.bytes(), e, 0))
        } else {
            old(out)@
        }),
{
    proof {
        lemma_expr_parts(mem.bytes(), e);
    }
    match Term(e).kind(mem) {
        TermKind::Const(name, _) => {
            out.push(name.0);
        },
        TermKind::App(f, a) => {
            stack.push(f.0);
            stack.push(a.0);
        },
        TermKind::Lambda(_, _, ty, b) | TermKind::Pi(_, _, ty, b) => {
            stack.push(ty.0);
            stack.push(b.0);
        },
        TermKind::Let(_, ty, v, b, _) => {
            stack.push(ty.0);
            stack.push(v.0);
            stack.push(b.0);
        },
        TermKind::Proj(name, _, structure) => {
            if projs {
                out.push(name.0);
            }
            stack.push(structure.0);
        },
        TermKind::MData(inner) => {
            stack.push(inner.0);
        },
        TermKind::Sort(_)
        | TermKind::BVar(_)
        | TermKind::Lit(_)
        | TermKind::FVar(_)
        | TermKind::MVar(_) => {},
    }
    proof {
        assert(stack@ =~= old(stack)@ + children(mem.bytes(), e));
    }
}

/// Appends to `out` the constants that the objects below `roots` name, each
/// object once.
fn collect<M: Memory>(mem: &M, roots: &[LeanObj], out: &mut Vec<LeanObj>, projs: bool)
    requires
        are_exprs(mem.bytes(), roots@),
    ensures
        final(out)@ == old(out)@ + names_in(
            mem.bytes(),
            firsts(walk(mem.bytes(), roots@)),
            projs,
        ),
{
    let ghost m = mem.bytes();
    let ghost before = out@;
    let mut visited: HashSet<LeanObj> = HashSet::new();
    let mut stack: Vec<LeanObj> = slice_to_vec(roots);
    let ghost mut seen: Seq<LeanObj> = seq![];
    proof {
        lemma_start(m, roots@);
        assert(before + names_in(m, firsts(seen), projs) =~= before);
        assert(seen.to_set() =~= visited@);
    }
    while stack.len() > 0
        invariant
            m == mem.bytes(),
            progress(m, roots@, seen, stack@),
            visited@ == seen.to_set(),
            out@ == before + names_in(m, firsts(seen), projs),
        decreases total(m, stack@),
    {
        let ghost was = stack@;
        let e: LeanObj = stack[stack.len() - 1];
        stack.pop();
        proof {
            lemma_top(m, roots@, seen, was);
        }
        if !visited.insert(e) {
            proof {
                lemma_drop(m, roots@, seen, was);
                assert(visited@ =~= seen.to_set());
                seen = seen + walk(m, seq![e]);
            }
            continue;
        }
        expand(mem, e, &mut stack, out, projs);
        proof {
            lemma_enter(m, roots@, seen, was);
            assert(firsts(seen).push(e).drop_last() =~= firsts(seen));
            assert(out@ =~= before + names_in(m, firsts(seen).push(e), projs));
            seen = seen.push(e);
        }
    }
    proof {
        lemma_end(m, roots@, seen, stack@);
    }
}

/// Appends to `out` the names of the constants below `roots`: those of the
/// constant objects, each object once, the last root first, and of what an
/// object holds the last first.
pub fn collect_consts<M: Memory>(mem: &M, roots: &[LeanObj], out: &mut Vec<LeanObj>)
    requires
        are_exprs(mem.bytes(), roots@),
    ensures
        final(out)@ == old(out)@ + names_in(
            mem.bytes(),
            firsts(walk(mem.bytes(), roots@)),
            false,
        ),
{
    collect(mem, roots, out, false);
}

/// Appends to `out` the names that an import of `roots` depends on: those of
/// the constants below `roots`, and those of the structure types of the
/// projections, which no expression has to hold as a constant. Each object
/// counts once, in the order of [`collect_consts`].
pub fn collect_deps<M: Memory>(mem: &M, roots: &[LeanObj], out: &mut Vec<LeanObj>)
    requires
        are_exprs(mem.bytes(), roots@),
    ensures
        final(out)@ == old(out)@ + names_in(
            mem.bytes(),
            firsts(walk(mem.bytes(), roots@)),
            true,
        ),
{
    collect(mem, roots, out, true);
}

/// The type, and the value where there is one, of the declaration `decl`.
pub open spec fn decl_roots(m: Bytes, decl: LeanObj) -> Seq<LeanObj> {
    let v = slot(m, decl, 0);
    let ty = slot(m, slot(m, v, 0), 2);
    if tag_of(m, decl) == 0 {
        seq![ty]
    } else {
        seq![ty, slot(m, v, 1)]
    }
}

/// The expressions of a declaration that is checked here: its type, and its
/// value where it has one.
pub fn decl_expr_roots<M: Memory>(mem: &M, decl: LeanObj) -> (r: Vec<LeanObj>)
    requires
        is_declaration(mem.bytes(), decl),
        checked_here(mem.bytes(), decl),
    ensures
        r@ == decl_roots(mem.bytes(), decl),
        are_exprs(mem.bytes(), r@),
{
    let ghost m = mem.bytes();
    let v = ctor_get(mem, decl, 0);
    assert(has_slot(m, v, 0));
    let cv = ctor_get(mem, v, 0);
    assert(has_slot(m, cv, 2));
    let mut roots: Vec<LeanObj> = Vec::new();
    roots.push(ctor_get(mem, cv, 2));
    let tag = ptr_tag(mem, decl);
    if tag == 1 || tag == 2 || tag == 3 {
        assert(has_slot(m, v, 1));
        roots.push(ctor_get(mem, v, 1));
    }
    assert(roots@ =~= decl_roots(m, decl));
    roots
}

/// Field `i` of each of the objects `os`.
pub open spec fn fields(m: Bytes, os: Seq<LeanObj>, i: int) -> Seq<LeanObj> {
    os.map_values(|o: LeanObj| slot(m, o, i))
}

/// Appends to `out` field `i` of each of the objects `objs`.
fn push_fields<M: Memory>(mem: &M, objs: &Vec<LeanObj>, i: u64, out: &mut Vec<LeanObj>)
    requires
        forall|k: int|
            0 <= k < objs@.len() ==> has_slot(mem.bytes(), #[trigger] objs@[k], i as int),
    ensures
        final(out)@ == old(out)@ + fields(mem.bytes(), objs@, i as int),
{
    let ghost all = fields(mem.bytes(), objs@, i as int);
    let ghost before = out@;
    let mut k: usize = 0;
    while k < objs.len()
        invariant
            k <= objs.len(),
            all == fields(mem.bytes(), objs@, i as int),
            out@ == before + all.take(k as int),
            forall|k: int|
                0 <= k < objs@.len() ==> has_slot(mem.bytes(), #[trigger] objs@[k], i as int),
        decreases objs.len() - k,
    {
        out.push(ctor_get(mem, objs[k], i));
        proof {
            assert(out@ =~= before + all.take(k + 1));
        }
        k = k + 1;
    }
    proof {
        assert(all.take(k as int) =~= all);
    }
}

/// Appends `objs` to `out`.
fn push_all(objs: &Vec<LeanObj>, out: &mut Vec<LeanObj>)
    ensures
        final(out)@ == old(out)@ + objs@,
{
    let ghost before = out@;
    let mut k: usize = 0;
    while k < objs.len()
        invariant
            k <= objs.len(),
            out@ == before + objs@.take(k as int),
        decreases objs.len() - k,
    {
        out.push(objs[k]);
        proof {
            assert(out@ =~= before + objs@.take(k + 1));
        }
        k = k + 1;
    }
    proof {
        assert(objs@.take(k as int) =~= objs@);
    }
}

/// The expressions of the constant info `ci`: its type, its value where it has
/// one, and the right-hand sides of a recursor.
pub open spec fn ci_roots(m: Bytes, ci: LeanObj) -> Seq<LeanObj> {
    let tag = tag_of(m, ci);
    let v = slot(m, ci, 0);
    let ty = slot(m, slot(m, v, 0), 2);
    if tag == 1 || tag == 2 || tag == 3 {
        seq![ty, slot(m, v, 1)]
    } else if tag == 7 {
        seq![ty] + fields(m, list_of(m, slot(m, v, 6)), 2)
    } else {
        seq![ty]
    }
}

/// The expressions of a constant info.
pub fn ci_expr_roots<M: Memory>(mem: &M, ci: LeanObj) -> (r: Vec<LeanObj>)
    requires
        is_constant_info(mem.bytes(), ci),
        tag_of(mem.bytes(), ci) <= 7,
    ensures
        r@ == ci_roots(mem.bytes(), ci),
        are_exprs(mem.bytes(), r@),
{
    let ghost m = mem.bytes();
    let v = ctor_get(mem, ci, 0);
    assert(has_slot(m, v, 0));
    let cv = ctor_get(mem, v, 0);
    assert(has_slot(m, cv, 2));
    let mut roots: Vec<LeanObj> = Vec::new();
    roots.push(ctor_get(mem, cv, 2));
    match ptr_tag(mem, ci) {
        1 | 2 | 3 => {
            assert(has_slot(m, v, 1));
            roots.push(ctor_get(mem, v, 1));
        },
        7 => {
            assert(has_slot(m, v, 6));
            let rules = list_objs(mem, ctor_get(mem, v, 6));
            assert forall|k: int| 0 <= k < rules@.len() implies has_slot(
                m,
                #[trigger] rules@[k],
                2,
            ) && is_expr(m, slot(m, rules@[k], 2)) by {
                assert(is_rule(m, rules@[k]));
            }
            push_fields(mem, &rules, 2, &mut roots);
        },
        _ => {},
    }
    assert(roots@ =~= ci_roots(m, ci));
    roots
}

/// The names of the constants that the constant info `ci` is defined together
/// with: of an inductive type all types of its group and its constructors, of
/// a constructor its type, of a recursor all types of its group and the
/// constructors of its rules.
pub open spec fn ci_related(m: Bytes, ci: LeanObj) -> Seq<LeanObj> {
    let tag = tag_of(m, ci);
    let v = slot(m, ci, 0);
    if tag == 5 {
        list_of(m, slot(m, v, 3)) + list_of(m, slot(m, v, 4))
    } else if tag == 6 {
        seq![slot(m, v, 1)]
    } else if tag == 7 {
        list_of(m, slot(m, v, 1)) + fields(m, list_of(m, slot(m, v, 6)), 0)
    } else {
        seq![]
    }
}

/// The names of the constants that a constant info is defined together with.
/// Its expressions need not mention them.
pub fn ci_related_names<M: Memory>(mem: &M, ci: LeanObj) -> (r: Vec<LeanObj>)
    requires
        is_constant_info(mem.bytes(), ci),
    ensures
        r@ == ci_related(mem.bytes(), ci),
        forall|i: int| 0 <= i < r@.len() ==> is_name(mem.bytes(), #[trigger] r@[i]),
{
    let ghost m = mem.bytes();
    let mut names: Vec<LeanObj> = Vec::new();
    match ptr_tag(mem, ci) {
        5 => {
            let v = ctor_get(mem, ci, 0);
            assert(has_slot(m, v, 3) && has_slot(m, v, 4));
            push_all(&list_objs(mem, ctor_get(mem, v, 3)), &mut names);
            push_all(&list_objs(mem, ctor_get(mem, v, 4)), &mut names);
        },
        6 => {
            let v = ctor_get(mem, ci, 0);
            assert(has_slot(m, v, 1));
            names.push(ctor_get(mem, v, 1));
        },
        7 => {
            let v = ctor_get(mem, ci, 0);
            assert(has_slot(m, v, 1) && has_slot(m, v, 6));
            push_all(&list_objs(mem, ctor_get(mem, v, 1)), &mut names);
            let rules = list_objs(mem, ctor_get(mem, v, 6));
            assert forall|k: int| 0 <= k < rules@.len() implies has_slot(
                m,
                #[trigger] rules@[k],
                0,
            ) && is_name(m, slot(m, rules@[k], 0)) by {
                assert(is_rule(m, rules@[k]));
            }
            push_fields(mem, &rules, 0, &mut names);
        },
        _ => {},
    }
    assert(names@ =~= ci_related(m, ci));
    names
}

/// A decoded constant agrees with what was to come out exactly where it is that
/// declaration, or an error with exactly that message.
pub proof fn law_declar_agreement(
    x: Declar,
    err: ImportError,
    out: Result<DeclarModel, Seq<char>>,
)
    ensures
        agrees_declar(Ok(x), out) <==> out == Ok::<DeclarModel, Seq<char>>(x@),
        agrees_declar(Err(err), out) <==> out == Err::<DeclarModel, Seq<char>>(err.0@),
{
}

} // verus!
