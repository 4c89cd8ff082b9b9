//! A word-placement board game engine: a 15x15 board with premium squares,
//! racks of letter tiles, a tile bag, and the rules that decide whether a
//! proposed word may be placed and that apply it when it may.
//!
//! The heart of the crate is [`game::board::Board::validate_and_place`]: it
//! runs the four checks of a move in a fixed order and lays the word only
//! where all four pass, so that a move that is turned down changes neither
//! the board nor the rack. [`game::rules`] says what each check decides,
//! and [`game::laws`] proves what follows for every move.
//!
//! Around it stand the reading of typed input ([`input`]), the texts that
//! tell a player why a move was turned down ([`error`]), the drawing of
//! board, rack and bag for a terminal ([`display`]), and the choices around
//! saved games ([`save`]).

pub mod display;
pub mod error;
pub mod first;
pub mod game;
pub mod input;
pub mod save;
pub mod text;
