use vstd::prelude::*;

verus! {

/// The built-in value types.
#[derive(Debug, Clone, Copy, PartialEq, Eq, Structural)]
pub enum PrimitiveType {
    Str,
    Int,
    Bool,
    Void,
}

} // verus!
