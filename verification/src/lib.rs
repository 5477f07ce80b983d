//! A modal text-editing core: selections, change sets and cursor motions over a rope.
pub mod text;
pub mod line_ending;
pub mod chars;
pub mod transaction;
pub mod grapheme;
pub mod movement;
pub mod selection;
pub mod search;
pub mod mode;
pub mod theme;
pub mod config;
pub mod document;
pub mod editor;
pub mod keymap;
pub mod screen;
