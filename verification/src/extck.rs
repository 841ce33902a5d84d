//! The decisions at the entry points of the external checker.
//!
//! The host passes a versioned table of helpers, and gets a table of callbacks
//! filled. Every declaration is passed on to the builtin kernel; where that
//! does not come back, the host gets an exception in place of an unwinding.

use crate::lean_sys::{mk_string, LeanObj};
use crate::plan::{string_plan, Build};
use vstd::prelude::*;

verus! {

/// The version of the two tables. It matches the host's.
pub const ABI_VERSION: u32 = 1;

/// What the entry point returns where it accepts the host.
pub const ACCEPTED: u32 = 0;

/// What the entry point returns where it rejects the host.
pub const REJECTED: u32 = 1;

/// The host's code for an exception that is none of the others.
pub const OTHER_EXCEPTION: u32 = 12;

/// How the table of callbacks is filled: its version, and which callbacks are
/// there.
#[derive(Debug, Clone, Copy, PartialEq, Eq, Structural)]
pub struct Filled {
    pub abi_version: u32,
    pub add_decl: bool,
    pub whnf: bool,
    pub check: bool,
    pub is_def_eq: bool,
    pub release: bool,
}

/// Whether the host is accepted, and how its table is filled then. `host` is
/// the version of the host's table, where there is one.
pub fn populate(host: Option<u32>) -> (r: Result<Filled, u32>)
    ensures
        r == (if host == Some(ABI_VERSION) {
            Ok::<Filled, u32>(
                Filled {
                    abi_version: ABI_VERSION,
                    add_decl: true,
                    whnf: false,
                    check: false,
                    is_def_eq: false,
                    release: false,
                },
            )
        } else {
            Err::<Filled, u32>(REJECTED)
        }),
{
    match host {
        Some(version) => if version == ABI_VERSION {
            Ok(
                Filled {
                    abi_version: ABI_VERSION,
                    add_decl: true,
                    whnf: false,
                    check: false,
                    is_def_eq: false,
                    release: false,
                },
            )
        } else {
            Err(REJECTED)
        },
        None => Err(REJECTED),
    }
}

/// What the host gets back for a declaration.
#[derive(Debug)]
pub enum Reply {
    /// What the builtin kernel returned.
    Object(LeanObj),
    /// An error that holds an exception with the given code and message, and
    /// nothing else.
    Exception { code: u32, msg: Build },
}

/// The answer to a declaration: `result` is what the builtin kernel returned,
/// where it came back.
pub fn reply(result: Option<LeanObj>) -> (r: Reply)
    ensures
        match result {
            Some(obj) => r == Reply::Object(obj),
            None => match r {
                Reply::Exception { code, msg } => {
                    &&& code == OTHER_EXCEPTION
                    &&& msg.plan() == string_plan("sokonanoda external checker panicked"@)
                },
                _ => false,
            },
        },
{
    match result {
        Some(obj) => Reply::Object(obj),
        None => Reply::Exception {
            code: OTHER_EXCEPTION,
            msg: mk_string("sokonanoda external checker panicked"),
        },
    }
}

} // verus!
