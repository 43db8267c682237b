pub mod chars;
pub mod compiler;
pub mod engine;
pub mod grammar;
pub mod matcher;
pub mod parser;
pub mod rules;
pub mod tagsoup;
pub mod template;
