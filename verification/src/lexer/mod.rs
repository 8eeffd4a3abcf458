pub mod token;
pub mod words;
pub mod keyword;
pub mod operator;
pub mod disposeable_comment;
pub mod documentational_comment;
pub mod space;
pub mod line_break;
pub mod invalid_characters;
pub mod identifier;
pub mod literal;
pub mod progress;
pub mod reader;
