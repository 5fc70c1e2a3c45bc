//! Core of a vim-like pixel editor: modifier bitsets, logical keys, chord
//! parsing, keyboard-layout translation, macro tables, and the modal command
//! interpreter that drives application callbacks.

pub mod bitmap2d;
pub mod canvas;
pub mod keyboard;
pub mod selection;
pub mod strutil;
pub mod ui;
pub mod visual;
