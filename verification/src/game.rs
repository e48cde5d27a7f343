pub mod basic_types;
pub mod edge_list;
pub mod board;
pub mod engine;
