//! The board, the rack and the bag as text for a terminal.

pub mod bag;
pub mod board;
pub mod frame;
pub mod rack;
pub mod style;
pub mod width;
