//! A minesweeper game: the board state, its rules and its save format.

pub mod board;
pub mod data;
pub mod placement;
pub mod duration;
pub mod egui_fps;
pub mod laws;
pub mod nice_time;
pub mod pos_set;
pub mod save;
pub mod save_law;
pub mod ser;
pub mod session;
pub mod uncover;
pub mod text;
pub mod tile;
pub mod time_sampler;
