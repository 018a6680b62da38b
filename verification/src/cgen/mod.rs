pub mod ast;
pub mod cgen;
pub mod machine;
pub mod program;
