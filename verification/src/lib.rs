//! Cassidy's game prototypes: a menu and the toys behind it.
//!
//! Every prototype keeps the same split: the simulation's rules are a pure,
//! deterministic library, and the binary is a thin shell that turns input
//! into a frame struct and state into shapes and sound.
//!
//! - [`shell`] is the menu's own state: which prototype it is pointing at.
//! - [`leitmotif`] is the first prototype, a game whose rules are set by its
//!   music.

pub mod leitmotif;
pub mod shell;
