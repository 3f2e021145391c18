//! The verified core of a beads (`bd`) board for herdr.
//!
//! The board shows the issues that the `bd` command keeps. What it asks of
//! `bd`, what it makes of the replies, in which order its worker runs the
//! requests, which repository it shows and when it draws is decided here, from
//! plain values to plain values; running commands and drawing is left to the
//! program around this library.

pub mod bd;
pub mod bead;
pub mod error;
pub mod json;
pub mod model;
pub mod screen;
pub mod text;
pub mod trace;
pub mod worker;
pub mod workspace;
