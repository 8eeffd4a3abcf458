pub mod text;
pub mod typescript;
pub mod client;
pub mod classes;
pub mod project;
pub mod translator;
pub mod floats;
