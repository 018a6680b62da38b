pub mod rules;
pub mod semantic;
pub mod type_checker;
