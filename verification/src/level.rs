//! Universe levels, as the arena keeps them.

use crate::util::{mix, mixed, Intern, LevelPtr, NamePtr};
use vstd::prelude::*;

verus! {

/// A level; its parts are pointers.
#[derive(Debug, Clone, Copy, PartialEq, Eq, Structural)]
pub enum Level {
    Zero,
    Succ(LevelPtr),
    Max(LevelPtr, LevelPtr),
    IMax(LevelPtr, LevelPtr),
    Param(NamePtr),
}

/// Hash seed of the level zero.
pub const ZERO_HASH: u64 = 109;

/// Hash seed of a successor.
pub const SUCC_HASH: u64 = 113;

/// Hash seed of a maximum.
pub const MAX_HASH: u64 = 127;

/// Hash seed of an impredicative maximum.
pub const IMAX_HASH: u64 = 131;

/// Hash seed of a level parameter.
pub const PARAM_HASH: u64 = 137;

impl View for Level {
    type V = Level;

    open spec fn view(&self) -> Level {
        *self
    }
}

impl Intern for Level {
    open spec fn hash_of(v: Level) -> u64 {
        match v {
            Level::Zero => ZERO_HASH,
            Level::Succ(a) => mixed(SUCC_HASH, a.idx as u64),
            Level::Max(a, b) => mixed(mixed(MAX_HASH, a.idx as u64), b.idx as u64),
            Level::IMax(a, b) => mixed(mixed(IMAX_HASH, a.idx as u64), b.idx as u64),
            Level::Param(n) => mixed(PARAM_HASH, n.idx as u64),
        }
    }

    fn hash64(&self) -> (h: u64) {
        match self {
            Level::Zero => ZERO_HASH,
            Level::Succ(a) => mix(SUCC_HASH, a.idx as u64),
            Level::Max(a, b) => mix(mix(MAX_HASH, a.idx as u64), b.idx as u64),
            Level::IMax(a, b) => mix(mix(IMAX_HASH, a.idx as u64), b.idx as u64),
            Level::Param(n) => mix(PARAM_HASH, n.idx as u64),
        }
    }

    fn same(&self, other: &Level) -> (b: bool) {
        *self == *other
    }
}

} // verus!
