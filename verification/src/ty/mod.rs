pub mod class_type;
pub mod primitive;
pub mod types;
