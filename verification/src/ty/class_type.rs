use vstd::prelude::*;

use super::types::Type;

verus! {

/// The type of a class: its name, the types of its fields and of its
/// methods.
#[derive(Debug)]
pub struct ClassType {
    pub name: String,
    pub fields: Vec<Type>,
    pub methods: Vec<Type>,
}

} // verus!
