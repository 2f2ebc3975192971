pub mod offset_mapper;
pub mod filtered_reader;
pub mod substring;
