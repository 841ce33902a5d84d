//! Expressions, as the arena keeps them.

use crate::util::{
    mix, mixed, BigUintPtr, ExprPtr, Intern, LevelPtr, LevelsPtr, NamePtr, StringPtr,
};
use vstd::prelude::*;

verus! {

/// How a binder is written.
#[derive(Debug, Clone, Copy, PartialEq, Eq, Structural)]
pub enum BinderStyle {
    Default,
    Implicit,
    StrictImplicit,
    InstanceImplicit,
}

/// An expression; its parts are pointers. Nodes with expressions below them
/// carry the number of binders that would close them, and whether there is a
/// free variable below.
#[derive(Debug, Clone, Copy, PartialEq, Eq, Structural)]
pub enum Expr {
    /// A bound variable, by the number of binders between it and its own.
    Var { dbj_idx: u16 },
    Sort { level: LevelPtr },
    Const { name: NamePtr, levels: LevelsPtr },
    App { fun: ExprPtr, arg: ExprPtr, num_loose_bvars: u32, has_fvars: bool },
    Pi {
        binder_name: NamePtr,
        binder_style: BinderStyle,
        binder_type: ExprPtr,
        body: ExprPtr,
        num_loose_bvars: u32,
        has_fvars: bool,
    },
    Lambda {
        binder_name: NamePtr,
        binder_style: BinderStyle,
        binder_type: ExprPtr,
        body: ExprPtr,
        num_loose_bvars: u32,
        has_fvars: bool,
    },
    Let {
        binder_name: NamePtr,
        binder_type: ExprPtr,
        val: ExprPtr,
        body: ExprPtr,
        num_loose_bvars: u32,
        has_fvars: bool,
        nondep: bool,
    },
    Proj {
        ty_name: NamePtr,
        idx: u64,
        structure: ExprPtr,
        num_loose_bvars: u32,
        has_fvars: bool,
    },
    NatLit { ptr: BigUintPtr },
    StringLit { ptr: StringPtr },
    /// A free variable: a bound one whose binder was opened.
    Local { binder_name: NamePtr, binder_type: ExprPtr, id: u64 },
}

pub const VAR_HASH: u64 = 139;

pub const SORT_HASH: u64 = 149;

pub const CONST_HASH: u64 = 151;

pub const APP_HASH: u64 = 157;

pub const PI_HASH: u64 = 163;

pub const LAMBDA_HASH: u64 = 167;

pub const LET_HASH: u64 = 173;

pub const PROJ_HASH: u64 = 179;

pub const NAT_LIT_HASH: u64 = 181;

pub const STRING_LIT_HASH: u64 = 191;

pub const LOCAL_HASH: u64 = 193;

impl BinderStyle {
    /// A number for each style.
    pub open spec fn code(self) -> u64 {
        match self {
            BinderStyle::Default => 0,
            BinderStyle::Implicit => 1,
            BinderStyle::StrictImplicit => 2,
            BinderStyle::InstanceImplicit => 3,
        }
    }

    fn to_code(self) -> (r: u64)
        ensures
            r == self.code(),
    {
        match self {
            BinderStyle::Default => 0,
            BinderStyle::Implicit => 1,
            BinderStyle::StrictImplicit => 2,
            BinderStyle::InstanceImplicit => 3,
        }
    }
}

impl Expr {
    /// The number of binders that would close the expression.
    pub open spec fn loose_bvars(self) -> u32 {
        match self {
            Expr::Var { dbj_idx } => (dbj_idx + 1) as u32,
            Expr::App { num_loose_bvars, .. } => num_loose_bvars,
            Expr::Pi { num_loose_bvars, .. } => num_loose_bvars,
            Expr::Lambda { num_loose_bvars, .. } => num_loose_bvars,
            Expr::Let { num_loose_bvars, .. } => num_loose_bvars,
            Expr::Proj { num_loose_bvars, .. } => num_loose_bvars,
            _ => 0,
        }
    }

    /// Whether the expression is or holds a free variable.
    pub open spec fn fvars(self) -> bool {
        match self {
            Expr::App { has_fvars, .. } => has_fvars,
            Expr::Pi { has_fvars, .. } => has_fvars,
            Expr::Lambda { has_fvars, .. } => has_fvars,
            Expr::Let { has_fvars, .. } => has_fvars,
            Expr::Proj { has_fvars, .. } => has_fvars,
            Expr::Local { .. } => true,
            _ => false,
        }
    }

    /// The number of binders that would close the expression.
    pub fn num_loose_bvars(&self) -> (r: u32)
        ensures
            r == self.loose_bvars(),
    {
        match *self {
            Expr::Var { dbj_idx } => dbj_idx as u32 + 1,
            Expr::App { num_loose_bvars, .. } => num_loose_bvars,
            Expr::Pi { num_loose_bvars, .. } => num_loose_bvars,
            Expr::Lambda { num_loose_bvars, .. } => num_loose_bvars,
            Expr::Let { num_loose_bvars, .. } => num_loose_bvars,
            Expr::Proj { num_loose_bvars, .. } => num_loose_bvars,
            _ => 0,
        }
    }

    /// Whether the expression is or holds a free variable.
    pub fn has_fvars(&self) -> (r: bool)
        ensures
            r == self.fvars(),
    {
        match *self {
            Expr::App { has_fvars, .. } => has_fvars,
            Expr::Pi { has_fvars, .. } => has_fvars,
            Expr::Lambda { has_fvars, .. } => has_fvars,
            Expr::Let { has_fvars, .. } => has_fvars,
            Expr::Proj { has_fvars, .. } => has_fvars,
            Expr::Local { .. } => true,
            _ => false,
        }
    }
}

impl View for Expr {
    type V = Expr;

    open spec fn view(&self) -> Expr {
        *self
    }
}

impl Intern for Expr {
    open spec fn hash_of(v: Expr) -> u64 {
        match v {
            Expr::Var { dbj_idx } => mixed(VAR_HASH, dbj_idx as u64),
            Expr::Sort { level } => mixed(SORT_HASH, level.idx as u64),
            Expr::Const { name, levels } => mixed(
                mixed(CONST_HASH, name.idx as u64),
                levels.idx as u64,
            ),
            Expr::App { fun, arg, .. } => mixed(mixed(APP_HASH, fun.idx as u64), arg.idx as u64),
            Expr::Pi { binder_name, binder_style, binder_type, body, .. } => mixed(
                mixed(
                    mixed(mixed(PI_HASH, binder_name.idx as u64), binder_style.code()),
                    binder_type.idx as u64,
                ),
                body.idx as u64,
            ),
            Expr::Lambda { binder_name, binder_style, binder_type, body, .. } => mixed(
                mixed(
                    mixed(mixed(LAMBDA_HASH, binder_name.idx as u64), binder_style.code()),
                    binder_type.idx as u64,
                ),
                body.idx as u64,
            ),
            Expr::Let { binder_name, binder_type, val, body, nondep, .. } => mixed(
                mixed(
                    mixed(
                        mixed(mixed(LET_HASH, binder_name.idx as u64), binder_type.idx as u64),
                        val.idx as u64,
                    ),
                    body.idx as u64,
                ),
                if nondep {
                    1
                } else {
                    0
                },
            ),
            Expr::Proj { ty_name, idx, structure, .. } => mixed(
                mixed(mixed(PROJ_HASH, ty_name.idx as u64), idx),
                structure.idx as u64,
            ),
            Expr::NatLit { ptr } => mixed(NAT_LIT_HASH, ptr.idx as u64),
            Expr::StringLit { ptr } => mixed(STRING_LIT_HASH, ptr.idx as u64),
            Expr::Local { id, .. } => mixed(LOCAL_HASH, id),
        }
    }

    fn hash64(&self) -> (h: u64) {
        match *self {
            Expr::Var { dbj_idx } => mix(VAR_HASH, dbj_idx as u64),
            Expr::Sort { level } => mix(SORT_HASH, level.idx as u64),
            Expr::Const { name, levels } => mix(
                mix(CONST_HASH, name.idx as u64),
                levels.idx as u64,
            ),
            Expr::App { fun, arg, .. } => mix(mix(APP_HASH, fun.idx as u64), arg.idx as u64),
            Expr::Pi { binder_name, binder_style, binder_type, body, .. } => mix(
                mix(
                    mix(mix(PI_HASH, binder_name.idx as u64), binder_style.to_code()),
                    binder_type.idx as u64,
                ),
                body.idx as u64,
            ),
            Expr::Lambda { binder_name, binder_style, binder_type, body, .. } => mix(
                mix(
                    mix(mix(LAMBDA_HASH, binder_name.idx as u64), binder_style.to_code()),
                    binder_type.idx as u64,
                ),
                body.idx as u64,
            ),
            Expr::Let { binder_name, binder_type, val, body, nondep, .. } => mix(
                mix(
                    mix(
                        mix(mix(LET_HASH, binder_name.idx as u64), binder_type.idx as u64),
                        val.idx as u64,
                    ),
                    body.idx as u64,
                ),
                if nondep {
                    1
                } else {
                    0
                },
            ),
            Expr::Proj { ty_name, idx, structure, .. } => mix(
                mix(mix(PROJ_HASH, ty_name.idx as u64), idx),
                structure.idx as u64,
            ),
            Expr::NatLit { ptr } => mix(NAT_LIT_HASH, ptr.idx as u64),
            Expr::StringLit { ptr } => mix(STRING_LIT_HASH, ptr.idx as u64),
            Expr::Local { id, .. } => mix(LOCAL_HASH, id),
        }
    }

    fn same(&self, other: &Expr) -> (b: bool) {
        *self == *other
    }
}

/// A variable is closed by one binder more than its index, a node with
/// expressions below it answers what it carries, a free variable is closed and
/// free, and all else is closed and has no free variable.
pub proof fn law_node_answers(e: Expr, n: u32, f: bool)
    ensures
        match e {
            Expr::Var { dbj_idx } => e.loose_bvars() == dbj_idx + 1 && !e.fvars(),
            Expr::App { num_loose_bvars, has_fvars, .. } => num_loose_bvars == n && has_fvars == f
                ==> e.loose_bvars() == n && e.fvars() == f,
            Expr::Pi { num_loose_bvars, has_fvars, .. } => num_loose_bvars == n && has_fvars == f
                ==> e.loose_bvars() == n && e.fvars() == f,
            Expr::Lambda { num_loose_bvars, has_fvars, .. } => num_loose_bvars == n && has_fvars
                == f ==> e.loose_bvars() == n && e.fvars() == f,
            Expr::Let { num_loose_bvars, has_fvars, .. } => num_loose_bvars == n && has_fvars == f
                ==> e.loose_bvars() == n && e.fvars() == f,
            Expr::Proj { num_loose_bvars, has_fvars, .. } => num_loose_bvars == n && has_fvars == f
                ==> e.loose_bvars() == n && e.fvars() == f,
            Expr::Local { .. } => e.loose_bvars() == 0 && e.fvars(),
            _ => e.loose_bvars() == 0 && !e.fvars(),
        },
{
}

} // verus!
