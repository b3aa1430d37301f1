//! Verified core of a small multiplayer arena game and its login platform.
use vstd::prelude::*;

pub mod text;
pub mod crypto;
pub mod shared;
pub mod sessions;
pub mod platform;
pub mod platform_client;
pub mod combat;
pub mod bullets;
pub mod scoreboard;
pub mod login;
pub mod client;
pub mod server;
pub mod env;

verus! {
} // verus!
