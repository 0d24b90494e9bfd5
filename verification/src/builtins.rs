//! The closed table of builtin-function names.
//!
//! The scanner recognises these lowercase identifiers as builtin-function
//! tokens.  The enumeration is fixed: it never changes after definition.

use vstd::prelude::*;

verus! {

/// A builtin function of the language, recognised by name during scanning.
#[derive(Debug, Clone, Copy, PartialEq, Eq, Structural)]
pub enum Builtin {
    Put,
    Get,
    Type,
    Len,
    Panic,
    Push,
    Pop,
}

} // verus!
