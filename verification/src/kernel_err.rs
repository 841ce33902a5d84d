//! Structured kernel errors, with enough in them for the integration layer to
//! rebuild the host's exception in place of a generic message.
//!
//! Names are carried as their rendered dotted strings and expressions as
//! exported objects, so that an error outlives the arena.

use crate::lean_sys::LeanObj;
use crate::text::{digits, hex};
use vstd::prelude::*;

verus! {

/// An exported runtime object, such as a type. It does not depend on the arena.
/// Whoever catches the error takes it over.
pub struct SendObj(pub LeanObj);

impl SendObj {
    /// The text under which the object is shown: its address in hexadecimal.
    pub fn text(&self) -> (r: String)
        ensures
            r@ == "SendObj(0x"@ + digits(self.0 as nat, 16) + ")"@,
    {
        let mut out = "SendObj(".to_owned();
        out.append(hex(self.0).as_str());
        out.append(")");
        proof {
            reveal_strlit("SendObj(");
            reveal_strlit("0x");
            reveal_strlit("SendObj(0x");
            let shown = digits(self.0 as nat, 16);
            assert("SendObj("@ + "0x"@ =~= "SendObj(0x"@);
            assert("SendObj("@ + ("0x"@ + shown) + ")"@ =~= "SendObj("@ + "0x"@ + shown + ")"@);
        }
        out
    }
}

/// A rejection by the kernel.
pub enum KernelErr {
    /// `unknown constant '{name}'`
    UnknownConstant { name: String },
    /// The constant `{name}` has already been declared.
    AlreadyDeclared { name: String },
    /// The declaration `{name}` has metavariables.
    DeclHasMVars { name: String },
    /// `let-declaration type mismatch '{name}'`
    LetTypeMismatch { name: String },
    /// The declaration's value has `given_type`, and its declared type differs.
    /// The host knows the declared type.
    DeclTypeMismatch { given_type: SendObj },
    /// The host asked for an abort: `reason` is the tag of a nullary exception
    /// (13 for a deterministic timeout, 16 for an interrupt).
    Aborted { reason: i32 },
    /// The declaration `{name}` has free variables in `e`.
    DeclHasFVars { name: String, e: SendObj },
    /// `application type mismatch {app}`: the argument has `arg_type`, the
    /// function has `fn_type`.
    AppTypeMismatch { app: SendObj, fn_type: SendObj, arg_type: SendObj },
    /// `type of theorem '{name}' is not a proposition{ty}`
    ThmTypeIsNotProp { name: String, ty: SendObj },
}

impl KernelErr {
    /// The code under which the host knows the exception.
    pub fn code(&self) -> (r: i32)
        ensures
            r == match *self {
                KernelErr::UnknownConstant { .. } => 0i32,
                KernelErr::AlreadyDeclared { .. } => 1i32,
                KernelErr::DeclTypeMismatch { .. } => 2i32,
                KernelErr::DeclHasMVars { .. } => 3i32,
                KernelErr::DeclHasFVars { .. } => 4i32,
                KernelErr::LetTypeMismatch { .. } => 7i32,
                KernelErr::AppTypeMismatch { .. } => 9i32,
                KernelErr::ThmTypeIsNotProp { .. } => 11i32,
                KernelErr::Aborted { reason } => reason,
            },
    {
        match self {
            KernelErr::UnknownConstant { .. } => 0,
            KernelErr::AlreadyDeclared { .. } => 1,
            KernelErr::DeclTypeMismatch { .. } => 2,
            KernelErr::DeclHasMVars { .. } => 3,
            KernelErr::DeclHasFVars { .. } => 4,
            KernelErr::LetTypeMismatch { .. } => 7,
            KernelErr::AppTypeMismatch { .. } => 9,
            KernelErr::ThmTypeIsNotProp { .. } => 11,
            KernelErr::Aborted { reason } => *reason,
        }
    }
}

} // verus!
