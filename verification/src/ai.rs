pub mod boox;
pub mod doot;
pub mod sleepy;
