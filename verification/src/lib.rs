//! Simulated typing for the terminal: the text of a configuration is revealed
//! one character at a time, line by line and pass by pass.
//!
//! The library decides what is shown and when; it performs no output itself.
//! A driver asks the [`engine::Engine`] for the next [`engine::Action`],
//! carries it out and reports back how that went.

pub mod color;
pub mod config;
pub mod engine;
pub mod key;
pub mod presenter;
pub mod script;
pub mod text;

pub use key::Key;
