pub mod cfg;
pub mod dom;
pub mod ssa;
