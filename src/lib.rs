//! A small to-do list model: an ordered store of task records, its
//! filtered and sorted projections, and a flat delimited-text file format.
pub mod model;
pub mod persist;
pub mod record;
pub mod store;
pub mod text;
