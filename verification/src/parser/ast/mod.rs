use vstd::prelude::*;

pub mod class;
pub mod expr;
pub mod program;

verus! {

pub type Identifier = String;

pub type Type = String;

pub type Boolean = bool;

pub type Int = u64;

pub type Str = String;

pub type ParamDecl = (Identifier, Type);

/// A parameter declaration as plain text: its name and its type.
pub type ParamM = (Seq<char>, Seq<char>);

pub open spec fn param_view(p: ParamDecl) -> ParamM {
    (p.0@, p.1@)
}

pub open spec fn params_view(ps: Seq<ParamDecl>) -> Seq<ParamM> {
    ps.map_values(|p: ParamDecl| param_view(p))
}

pub open spec fn strings_view(ss: Seq<String>) -> Seq<Seq<char>> {
    ss.map_values(|s: String| s@)
}

pub open spec fn opt_string_view(s: Option<String>) -> Option<Seq<char>> {
    match s {
        Some(x) => Some(x@),
        None => None,
    }
}

} // verus!
