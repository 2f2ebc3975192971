pub mod chars;
pub mod filtered;
pub mod line;
pub mod line_registry;
pub mod read_delimited;
pub mod text;
pub mod tokenizer;
pub mod line_source;
pub mod backend;
pub mod char_navigation;
