//! The programs whose execution a proof attests.

pub mod guest_program;
pub mod state_transition;
