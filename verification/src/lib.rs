//! Ripples on a text board: the verified core of a click-driven wave display.
//!
//! A board of 75 by 20 text cells shows a decaying wave for every click. The
//! shape of the wave is floating-point work and stays with the application;
//! this library holds what can be stated on whole numbers and proved:
//!
//! - [`grid`]: which cell of the board shows which glyph, and in which order
//!   the cells are laid out;
//! - [`glyph`]: the glyphs of the frame and of a resting cell;
//! - [`registry`]: the ripples that are alive, their ages and their expiry;
//! - [`frame`]: one frame of the simulation, from the tick of the clock to
//!   the symbols on the board, around a field that the caller supplies;
//! - [`quantizer`]: from an accumulated value to the symbol a cell shows;
//! - [`decimal`]: the decimal text of a whole number.

pub mod decimal;
pub mod frame;
pub mod glyph;
pub mod grid;
pub mod quantizer;
pub mod registry;
mod timer;
