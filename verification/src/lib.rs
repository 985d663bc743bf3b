//! Suggest a shell command from a natural-language description.
//!
//! A description goes to a language model, and the command in its reply is
//! printed and copied to the clipboard. This library decides what is loaded,
//! sent, printed and copied; reading files, the network, the clipboard and the
//! terminal are the program's.

pub mod chat;
pub mod clipboard;
pub mod command;
pub mod config;
pub mod paths;
pub mod session;
pub mod stderr;
pub mod text;
