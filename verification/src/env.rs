//! Declarations, over pointers into the arena.

use crate::model::{valid_expr, valid_levels, valid_name, DagModel};
use crate::util::{ExprPtr, LevelsPtr, NamePtr};
use vstd::prelude::*;

verus! {

/// How readily a definition is unfolded.
#[derive(Debug, Clone, Copy, PartialEq, Eq, Structural)]
pub enum ReducibilityHint {
    Opaque,
    Regular(u16),
    Abbrev,
}

/// What every declaration has: its name, its universe parameters (one level
/// parameter each), and its type.
#[derive(Debug, Clone, Copy, PartialEq, Eq, Structural)]
pub struct DeclarInfo {
    pub name: NamePtr,
    pub uparams: LevelsPtr,
    pub ty: ExprPtr,
}

/// An inductive type.
#[derive(Debug, Clone)]
pub struct InductiveData {
    pub info: DeclarInfo,
    pub is_recursive: bool,
    pub is_nested: bool,
    pub num_params: u16,
    pub num_indices: u16,
    pub all_ind_names: Vec<NamePtr>,
    pub all_ctor_names: Vec<NamePtr>,
}

/// A constructor of an inductive type.
#[derive(Debug, Clone, Copy, PartialEq, Eq, Structural)]
pub struct ConstructorData {
    pub info: DeclarInfo,
    pub inductive_name: NamePtr,
    pub ctor_idx: u16,
    pub num_params: u16,
    pub num_fields: u16,
}

/// What a recursor does on one constructor.
#[derive(Debug, Clone, Copy, PartialEq, Eq, Structural)]
pub struct RecRule {
    pub ctor_name: NamePtr,
    pub ctor_telescope_size_wo_params: u16,
    pub val: ExprPtr,
}

/// A recursor.
#[derive(Debug, Clone)]
pub struct RecursorData {
    pub info: DeclarInfo,
    pub all_inductives: Vec<NamePtr>,
    pub num_params: u16,
    pub num_indices: u16,
    pub num_motives: u16,
    pub num_minors: u16,
    pub rec_rules: Vec<RecRule>,
    pub is_k: bool,
}

/// A declaration.
#[derive(Debug, Clone)]
pub enum Declar {
    Axiom { info: DeclarInfo },
    Definition { info: DeclarInfo, val: ExprPtr, hint: ReducibilityHint },
    Theorem { info: DeclarInfo, val: ExprPtr },
    Opaque { info: DeclarInfo, val: ExprPtr },
    Quot { info: DeclarInfo },
    Inductive(InductiveData),
    Constructor(ConstructorData),
    Recursor(RecursorData),
}

/// A declaration, with its lists as sequences.
pub enum DeclarModel {
    Axiom { info: DeclarInfo },
    Definition { info: DeclarInfo, val: ExprPtr, hint: ReducibilityHint },
    Theorem { info: DeclarInfo, val: ExprPtr },
    Opaque { info: DeclarInfo, val: ExprPtr },
    Quot { info: DeclarInfo },
    Inductive {
        info: DeclarInfo,
        is_recursive: bool,
        is_nested: bool,
        num_params: u16,
        num_indices: u16,
        all_ind_names: Seq<NamePtr>,
        all_ctor_names: Seq<NamePtr>,
    },
    Constructor(ConstructorData),
    Recursor {
        info: DeclarInfo,
        all_inductives: Seq<NamePtr>,
        num_params: u16,
        num_indices: u16,
        num_motives: u16,
        num_minors: u16,
        rec_rules: Seq<RecRule>,
        is_k: bool,
    },
}

impl View for Declar {
    type V = DeclarModel;

    open spec fn view(&self) -> DeclarModel {
        match *self {
            Declar::Axiom { info } => DeclarModel::Axiom { info },
            Declar::Definition { info, val, hint } => DeclarModel::Definition { info, val, hint },
            Declar::Theorem { info, val } => DeclarModel::Theorem { info, val },
            Declar::Opaque { info, val } => DeclarModel::Opaque { info, val },
            Declar::Quot { info } => DeclarModel::Quot { info },
            Declar::Inductive(x) => DeclarModel::Inductive {
                info: x.info,
                is_recursive: x.is_recursive,
                is_nested: x.is_nested,
                num_params: x.num_params,
                num_indices: x.num_indices,
                all_ind_names: x.all_ind_names@,
                all_ctor_names: x.all_ctor_names@,
            },
            Declar::Constructor(x) => DeclarModel::Constructor(x),
            Declar::Recursor(x) => DeclarModel::Recursor {
                info: x.info,
                all_inductives: x.all_inductives@,
                num_params: x.num_params,
                num_indices: x.num_indices,
                num_motives: x.num_motives,
                num_minors: x.num_minors,
                rec_rules: x.rec_rules@,
                is_k: x.is_k,
            },
        }
    }
}

/// Whether the pointers of `info` point into `d`.
pub open spec fn info_ok(d: DagModel, info: DeclarInfo) -> bool {
    &&& valid_name(d, info.name)
    &&& valid_levels(d, info.uparams)
    &&& valid_expr(d, info.ty)
}

/// Whether all of `ns` point into `d`.
pub open spec fn names_ok(d: DagModel, ns: Seq<NamePtr>) -> bool {
    forall|i: int| 0 <= i < ns.len() ==> valid_name(d, #[trigger] ns[i])
}

/// Whether the pointers of all of `rs` point into `d`.
pub open spec fn rules_ok(d: DagModel, rs: Seq<RecRule>) -> bool {
    forall|i: int|
        0 <= i < rs.len() ==> valid_name(d, (#[trigger] rs[i]).ctor_name) && valid_expr(
            d,
            rs[i].val,
        )
}

/// Whether the pointers of the declaration `x` point into `d`.
pub open spec fn declar_ok(d: DagModel, x: DeclarModel) -> bool {
    match x {
        DeclarModel::Axiom { info } => info_ok(d, info),
        DeclarModel::Definition { info, val, .. } => info_ok(d, info) && valid_expr(d, val),
        DeclarModel::Theorem { info, val } => info_ok(d, info) && valid_expr(d, val),
        DeclarModel::Opaque { info, val } => info_ok(d, info) && valid_expr(d, val),
        DeclarModel::Quot { info } => info_ok(d, info),
        DeclarModel::Inductive { info, all_ind_names, all_ctor_names, .. } => {
            &&& info_ok(d, info)
            &&& names_ok(d, all_ind_names)
            &&& names_ok(d, all_ctor_names)
        },
        DeclarModel::Constructor(c) => info_ok(d, c.info) && valid_name(d, c.inductive_name),
        DeclarModel::Recursor { info, all_inductives, rec_rules, .. } => {
            &&& info_ok(d, info)
            &&& names_ok(d, all_inductives)
            &&& rules_ok(d, rec_rules)
        },
    }
}

/// Declarations with the same model are the same, field by field: the model
/// leaves nothing out and mixes nothing up.
pub proof fn law_declar_model(x: Declar)
    ensures
        match x {
            Declar::Axiom { info } => x@ == (DeclarModel::Axiom { info }),
            Declar::Definition { info, val, hint } => x@ == (DeclarModel::Definition {
                info,
                val,
                hint,
            }),
            Declar::Theorem { info, val } => x@ == (DeclarModel::Theorem { info, val }),
            Declar::Opaque { info, val } => x@ == (DeclarModel::Opaque { info, val }),
            Declar::Quot { info } => x@ == (DeclarModel::Quot { info }),
            Declar::Inductive(y) => {
                &&& x@ is Inductive
                &&& x@->Inductive_info == y.info
                &&& x@->is_recursive == y.is_recursive
                &&& x@->is_nested == y.is_nested
                &&& x@->Inductive_num_params == y.num_params
                &&& x@->Inductive_num_indices == y.num_indices
                &&& x@->all_ind_names == y.all_ind_names@
                &&& x@->all_ctor_names == y.all_ctor_names@
            },
            Declar::Constructor(y) => x@ == DeclarModel::Constructor(y),
            Declar::Recursor(y) => {
                &&& x@ is Recursor
                &&& x@->Recursor_info == y.info
                &&& x@->all_inductives == y.all_inductives@
                &&& x@->Recursor_num_params == y.num_params
                &&& x@->Recursor_num_indices == y.num_indices
                &&& x@->num_motives == y.num_motives
                &&& x@->num_minors == y.num_minors
                &&& x@->rec_rules == y.rec_rules@
                &&& x@->is_k == y.is_k
            },
        },
{
}

} // verus!
