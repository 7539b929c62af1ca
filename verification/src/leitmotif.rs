//! Leitmotif: a game whose rules are set by its music.
//!
//! [`song`] is the score and the sequencer that walks it, the source of every
//! event. [`sim`] holds the game's own rules: where the journey stands, what
//! a heart is worth, and how music events become cues. [`mix`] is the policy
//! for what a cue sounds like, and [`synth`] frames rendered audio as WAV
//! bytes.

pub mod mix;
pub mod sim;
pub mod song;
pub mod synth;
