//! NetworkManager requests with plain-text errors.
use vstd::prelude::*;

pub mod types;
pub mod run;
pub mod devices;
pub mod wifi;
pub mod settings;
pub mod laws;

pub use types::{
    ConnectionDetails, DetailsView, HotspotStatus, HotspotView, Ipv4Config, Ipv4View, Ipv6Config,
    Ipv6View, NetworkDevice, NetworkStatus, SavedConnection, SavedView, StatusView, WifiNetwork,
    WifiView,
};

verus! {
}
