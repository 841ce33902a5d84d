//! Hierarchical names, as the arena keeps them.

use crate::util::{mix, mixed, Intern, NamePtr, StringPtr};
use vstd::prelude::*;

verus! {

/// A name; prefixes are pointers.
#[derive(Debug, Clone, Copy, PartialEq, Eq, Structural)]
pub enum Name {
    Anon,
    Str(NamePtr, StringPtr),
    Num(NamePtr, u64),
}

/// Hash seed of the anonymous name.
pub const ANON_HASH: u64 = 101;

/// Hash seed of a name that ends in a string.
pub const STR_HASH: u64 = 103;

/// Hash seed of a name that ends in a number.
pub const NUM_HASH: u64 = 107;

impl View for Name {
    type V = Name;

    open spec fn view(&self) -> Name {
        *self
    }
}

impl Intern for Name {
    open spec fn hash_of(v: Name) -> u64 {
        match v {
            Name::Anon => ANON_HASH,
            Name::Str(pre, sfx) => mixed(mixed(STR_HASH, pre.idx as u64), sfx.idx as u64),
            Name::Num(pre, n) => mixed(mixed(NUM_HASH, pre.idx as u64), n),
        }
    }

    fn hash64(&self) -> (h: u64) {
        match self {
            Name::Anon => ANON_HASH,
            Name::Str(pre, sfx) => mix(mix(STR_HASH, pre.idx as u64), sfx.idx as u64),
            Name::Num(pre, n) => mix(mix(NUM_HASH, pre.idx as u64), *n),
        }
    }

    fn same(&self, other: &Name) -> (b: bool) {
        *self == *other
    }
}

} // verus!
