//! A chat bot for Livechan-style boards: message bookkeeping, command
//! matching, a hangman game and the decisions of the connection loop.
use vstd::prelude::*;

pub mod commands;
pub mod connection;
pub mod hangman;
pub mod message;
mod random;
pub mod settings;
pub mod text;
pub mod yaml;

verus! {

} // verus!
