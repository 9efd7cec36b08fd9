pub mod board;
pub mod line;
pub mod spawn;
