pub mod abstract_present;
pub mod ast2ir;
pub mod pass;
pub mod util;
