pub mod highlight;
pub mod custom_highlighter;
pub mod date_highlight;
pub mod search_highlighter;
pub mod pattern_based_highlighter;
