//! A minimal tape-machine interpreter for an eight-opcode esoteric
//! instruction language, together with the program/input splitter and the
//! output-to-glyph-unit conversion that surround it in a text-shaping
//! pipeline.
//!
//! The interpreter executes a program against a fixed-size circular tape of
//! 30,000 unsigned 8-bit cells, consuming characters from an input string on
//! demand and producing an output string. Its behaviour is specified by a
//! small-step semantics in [`semantics`] and proved against it.

pub mod chars;
pub mod glyphs;
pub mod interp;
pub mod laws;
pub mod semantics;
pub mod split;

pub use glyphs::{glyph_units_from_string, GlyphUnit};
pub use interp::{interpret_brainfuck, run};
pub use semantics::BfError;
pub use split::split_program_input;
