pub mod ai;
pub mod box_drawings;
pub mod game;
pub mod players;
pub mod utils;
