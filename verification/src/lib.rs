//! Strawberry: the front end of a small object-oriented language, with its
//! lexer, parser, symbol tables, semantic checker and intermediate forms.
#![allow(unused_imports)]
#![allow(non_snake_case)]

use vstd::prelude::*;

pub mod utils;
pub mod lexer;
pub mod parser;
pub mod ctx;
pub mod IR;
pub mod ty;
pub mod llvm;
pub mod cgen;
pub mod mini;
pub mod laws;

verus! {

pub const STRING: &'static str = "String";

pub const OBJECT: &'static str = "Object";

pub const INT: &'static str = "int";

pub const INTEGER: &'static str = "Integer";

pub const BOOL: &'static str = "Bool";

pub const SELF: &'static str = "self";

pub const VOID: &'static str = "Void";

pub const STR: &'static str = "str";

pub const PRIMSLOT: &'static str = "PrimSlot";

pub const RUNTIME_ERR: &'static str = "Some runtime errors occurred and the program has crashed! \\n";

pub const INT_CONST_VAL_OFFSET: usize = 24;

pub const BOOL_CONST_VAL_OFFSET: usize = 24;

pub const STRING_CONST_VAL_OFFSET: usize = 24;

pub const DISPATCH_TABLE_OFFSET: usize = 16;

pub const NULL_TAG_OFFSET: usize = 8;

pub const FIELD_BASIC_OFFSET: usize = 24;

pub const DEBUG: bool = false;

} // verus!
pub mod semantic;
