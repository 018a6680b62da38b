pub mod table;
pub mod util;
