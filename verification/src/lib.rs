//! Saving the messages of the Sakurazaka46, Hinatazaka46, Nogizaka46,
//! Asuka Saito, Mai Shiraishi and yodel message apps: the decisions and
//! formats behind the `colmsg` command, with their contracts.
use vstd::prelude::*;

pub mod config;
pub mod controller;
pub mod datetime;
pub mod dirs;
pub mod errors;
pub mod http;
pub mod message;
pub mod progress;
pub mod text;

verus! {

/// The kinds of message that can be saved.
#[derive(Clone, Copy, Debug, PartialEq, Eq, Structural)]
pub enum Kind {
    Text,
    Picture,
    Video,
    Voice,
    Link,
}

} // verus!
