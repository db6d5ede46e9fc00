//! Decision logic of a desktop wallpaper rotator.
//!
//! The crate decides; the program around it performs. Every function here
//! works on plain values (strings, integers, listings) and states in its
//! contract what it returns, so the surrounding program only has to carry
//! out network, file-system and desktop operations and report back.

pub mod autostart;
pub mod config;
pub mod cycle;
pub mod launch;
pub mod naming;
pub mod paths;
pub mod retention;
