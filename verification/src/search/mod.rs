pub mod searcher;
pub mod searcher_impl;
pub mod regex_searcher_impl;
pub mod navigable_searcher_impl;
