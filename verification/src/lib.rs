//! The input side of an external checker for Lean: reading the host's kernel
//! objects, importing them into a persistent hash-consed arena, decoding
//! declarations, and describing the objects that are handed back.

pub mod arena;
pub mod big;
pub mod built;
pub mod decode;
pub mod decode_laws;
pub mod env;
pub mod expr;
pub mod extck;
pub mod fault_laws;
pub mod importer;
pub mod kernel_err;
pub mod laws;
pub mod layout;
pub mod lean_sys;
pub mod level;
pub mod memory;
pub mod model;
pub mod name;
pub mod plan;
pub mod term;
pub mod text;
pub mod util;
pub mod walk;
pub mod walk_laws;
