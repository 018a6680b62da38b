use vstd::prelude::*;

use crate::parser::ast::Type;
use crate::{INT, STR, VOID};

verus! {

/// How a type of the language is laid out in LLVM: a 32-bit integer, a
/// string, or the structure of a class.
#[derive(Debug)]
pub enum LLVMType {
    I32,
    Str,
    StructType { type_: Type },
}

impl LLVMType {
    /// `int` is an `I32`, `str` a `Str`; any other name is the structure
    /// of the class of that name.
    pub fn from_string_to_llvm_type(name: &String) -> (r: Self)
        ensures
            name@ == INT@ ==> r is I32,
            name@ != INT@ && name@ == STR@ ==> r is Str,
            name@ != INT@ && name@ != STR@ ==> (r matches LLVMType::StructType { type_ } && type_@ == name@),
    {
        let int_name = String::from_str(INT);
        let str_name = String::from_str(STR);
        if *name == int_name {
            return LLVMType::I32;
        } else if *name == str_name {
            return LLVMType::Str;
        } else {
            return LLVMType::StructType { type_: name.clone() };
        }
    }

    /// Whether the name is `Void`.
    pub fn is_void_type(name: &String) -> (r: bool)
        ensures
            r == (name@ == VOID@),
    {
        let void_name = String::from_str(VOID);
        *name == void_name
    }
}

} // verus!
