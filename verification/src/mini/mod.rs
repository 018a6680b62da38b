pub mod ast;
pub mod lexer;
pub mod semantic;
pub mod strawberry;
pub mod table;
pub mod token;
