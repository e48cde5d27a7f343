pub mod lineup;
pub mod hoomin;
pub mod player;
