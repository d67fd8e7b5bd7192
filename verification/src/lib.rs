//! Core of a hotkey-driven microphone mute/unmute controller.
//!
//! A physical hotkey is turned into a mute/unmute intent (push-to-talk or
//! toggle-to-talk), and a background enforcer keeps the hardware capture
//! switch in agreement with that intent. This crate holds the verified
//! logic: binding resolution, key-event interpretation (debouncing and the
//! push/toggle state machines), and the enforcer's per-cycle decision.
//! The surrounding process (windowing connection, mixer handles, threads)
//! feeds these functions plain values and carries out the actions they
//! return.

pub mod bindings;
pub mod enforcer;
pub mod interpreter;
pub mod mask;

pub use mask::ModifierMask;
