//! A keyboard layout optimizer core: observes keystroke digram timing,
//! ranks keys per physical position, and proposes an alternative layout.

pub mod digram_timing;
pub mod input;
pub mod keyboard;
pub mod layout_creator;
pub mod trace;
