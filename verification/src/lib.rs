//! Core of a keyboard-driven encounter tracker: an ordered roster of
//! creature records (name, health, initiative, notes), a hovered selection,
//! in-progress field editors, and the modal state machine that interprets
//! each key event. Terminal input and drawing live outside this crate; the
//! library consumes plain key events and exposes plain render data.

pub mod app;
pub mod args;
pub mod creature;
pub mod editor;
pub mod keys;
pub mod laws;
pub mod num;
pub mod present;
pub mod sort;
pub mod text;
