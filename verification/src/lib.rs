//! Architectural state of a CHIP-8 virtual machine, with the framebuffer
//! scaling and tone-control logic that consume it.
//!
//! Every guarded accessor carries a contract over a mathematical view of the
//! machine, so that a caller can reason about the state without seeing how
//! it is stored.

pub mod audio;
pub mod chip8;
pub mod display;
