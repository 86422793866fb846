//! The requests behind the web front-end, which speaks to `nmcli` and reports
//! failures as plain text.
use vstd::prelude::*;

pub mod nm;
pub mod theme;

verus! {
}
