//! NetworkManager front-end logic: the `nmcli` conversations behind the
//! network panel and the web front-end, the parsing of what `nmcli` prints,
//! what the panel's pages show and ask for, and the colour theme.
use vstd::prelude::*;

pub mod text;
pub mod nm;
pub mod web;
pub mod theme;
pub mod ui;

verus! {
}
