//! Verified core of a viewer for large log files: intervals of offsets, the registry of
//! line breaks, segmentation of text into lines and words, searching, and the mapping of
//! offsets between a filtered view and its source.
pub mod interval;
pub mod decimal;
pub mod data_source;
pub mod profiles;
pub mod search;
pub mod highlight;
pub mod ui;
pub mod model;
pub mod selection;
