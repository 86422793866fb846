//! Talking to NetworkManager through `nmcli`.
use vstd::prelude::*;

pub mod types;
pub mod reply;
pub mod cli;
pub mod service;
pub mod laws;

verus! {
}
