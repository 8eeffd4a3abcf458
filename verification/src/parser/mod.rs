pub mod error;
pub mod field_type;
pub mod endpoint;
pub mod custom_type;
pub mod parse;
