pub mod progress_model;
pub mod metrics_model;
pub mod bgp_model;
pub mod go_to;
pub mod open_file_model;
pub mod search;
pub mod navigable_searcher_constructor;
pub mod scroll_position;
pub mod cursor_shift;
pub mod rendered;
pub mod model_event;
pub mod model;
pub mod go_to_date;
pub mod search_model;
pub mod cursor_helper;
