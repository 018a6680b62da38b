use vstd::prelude::*;

use super::class::Class;
use super::expr::Import;

verus! {

/// A parsed source file: what it imports and the classes it declares.
pub struct Program {
    pub impots: Vec<Import>,
    pub classes: Vec<Class>,
}

} // verus!
