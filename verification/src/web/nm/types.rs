//! The values that the web front-end shows and edits.
use vstd::prelude::*;
use crate::nm::types::DeviceView;

verus! {

/// One WiFi network in range.
#[derive(Clone, Debug)]
pub struct WifiNetwork {
    pub ssid: String,
    pub signal: u8,
    pub security: String,
    pub in_use: bool,
    pub bssid: String,
    pub saved: bool,
}

/// The text of a [`WifiNetwork`].
pub struct WifiView {
    pub ssid: Seq<char>,
    pub signal: u8,
    pub security: Seq<char>,
    pub in_use: bool,
    pub bssid: Seq<char>,
    pub saved: bool,
}

impl DeepView for WifiNetwork {
    type V = WifiView;

    open spec fn deep_view(&self) -> WifiView {
        WifiView {
            ssid: self.ssid@,
            signal: self.signal,
            security: self.security@,
            in_use: self.in_use,
            bssid: self.bssid@,
            saved: self.saved,
        }
    }
}

impl WifiNetwork {
    /// A copy of the network.
    pub fn copy(&self) -> (r: WifiNetwork)
        ensures
            r.deep_view() == self.deep_view(),
    {
        WifiNetwork {
            ssid: self.ssid.clone(),
            signal: self.signal,
            security: self.security.clone(),
            in_use: self.in_use,
            bssid: self.bssid.clone(),
            saved: self.saved,
        }
    }
}

/// One network device.
#[derive(Clone, Debug)]
pub struct NetworkDevice {
    pub name: String,
    pub device_type: String,
    pub state: String,
    pub connection: String,
    pub ip4: String,
}

impl DeepView for NetworkDevice {
    type V = DeviceView;

    open spec fn deep_view(&self) -> DeviceView {
        DeviceView {
            name: self.name@,
            device_type: self.device_type@,
            state: self.state@,
            connection: self.connection@,
            ip4: self.ip4@,
        }
    }
}

/// One saved connection profile.
#[derive(Clone, Debug)]
pub struct SavedConnection {
    pub name: String,
    pub uuid: String,
    pub connection_type: String,
    pub device: String,
    pub active: bool,
}

/// The text of a [`SavedConnection`].
pub struct SavedView {
    pub name: Seq<char>,
    pub uuid: Seq<char>,
    pub connection_type: Seq<char>,
    pub device: Seq<char>,
    pub active: bool,
}

impl DeepView for SavedConnection {
    type V = SavedView;

    open spec fn deep_view(&self) -> SavedView {
        SavedView {
            name: self.name@,
            uuid: self.uuid@,
            connection_type: self.connection_type@,
            device: self.device@,
            active: self.active,
        }
    }
}

/// IPv4 settings.
#[derive(Clone, Debug)]
pub struct Ipv4Config {
    pub method: String,
    pub addresses: String,
    pub gateway: String,
    pub dns: String,
    pub mtu: Option<u32>,
}

/// The text of an [`Ipv4Config`].
pub struct Ipv4View {
    pub method: Seq<char>,
    pub addresses: Seq<char>,
    pub gateway: Seq<char>,
    pub dns: Seq<char>,
    pub mtu: Option<u32>,
}

impl DeepView for Ipv4Config {
    type V = Ipv4View;

    open spec fn deep_view(&self) -> Ipv4View {
        Ipv4View {
            method: self.method@,
            addresses: self.addresses@,
            gateway: self.gateway@,
            dns: self.dns@,
            mtu: self.mtu,
        }
    }
}

/// IPv6 settings.
#[derive(Clone, Debug)]
pub struct Ipv6Config {
    pub method: String,
    pub addresses: String,
    pub gateway: String,
    pub dns: String,
}

/// The text of an [`Ipv6Config`].
pub struct Ipv6View {
    pub method: Seq<char>,
    pub addresses: Seq<char>,
    pub gateway: Seq<char>,
    pub dns: Seq<char>,
}

impl DeepView for Ipv6Config {
    type V = Ipv6View;

    open spec fn deep_view(&self) -> Ipv6View {
        Ipv6View {
            method: self.method@,
            addresses: self.addresses@,
            gateway: self.gateway@,
            dns: self.dns@,
        }
    }
}

/// The settings of a connection profile.
#[derive(Clone, Debug)]
pub struct ConnectionDetails {
    pub uuid: String,
    pub name: String,
    pub connection_type: String,
    pub device: String,
    pub ipv4: Ipv4Config,
    pub ipv6: Ipv6Config,
    pub mtu: Option<u32>,
    pub autoconnect: bool,
}

/// The text of a [`ConnectionDetails`].
pub struct DetailsView {
    pub uuid: Seq<char>,
    pub name: Seq<char>,
    pub connection_type: Seq<char>,
    pub device: Seq<char>,
    pub ipv4: Ipv4View,
    pub ipv6: Ipv6View,
    pub mtu: Option<u32>,
    pub autoconnect: bool,
}

impl DeepView for ConnectionDetails {
    type V = DetailsView;

    open spec fn deep_view(&self) -> DetailsView {
        DetailsView {
            uuid: self.uuid@,
            name: self.name@,
            connection_type: self.connection_type@,
            device: self.device@,
            ipv4: self.ipv4.deep_view(),
            ipv6: self.ipv6.deep_view(),
            mtu: self.mtu,
            autoconnect: self.autoconnect,
        }
    }
}

/// The connection state.
#[derive(Clone, Debug)]
pub struct NetworkStatus {
    pub wifi_enabled: bool,
    pub connected: bool,
    pub ssid: String,
    pub ip4: String,
    pub gateway: String,
    pub device: String,
    pub connection_type: String,
}

/// The text of a [`NetworkStatus`].
pub struct StatusView {
    pub wifi_enabled: bool,
    pub connected: bool,
    pub ssid: Seq<char>,
    pub ip4: Seq<char>,
    pub gateway: Seq<char>,
    pub device: Seq<char>,
    pub connection_type: Seq<char>,
}

impl DeepView for NetworkStatus {
    type V = StatusView;

    open spec fn deep_view(&self) -> StatusView {
        StatusView {
            wifi_enabled: self.wifi_enabled,
            connected: self.connected,
            ssid: self.ssid@,
            ip4: self.ip4@,
            gateway: self.gateway@,
            device: self.device@,
            connection_type: self.connection_type@,
        }
    }
}

/// Whether this machine serves a hotspot.
#[derive(Clone, Debug)]
pub struct HotspotStatus {
    pub active: bool,
    pub ssid: String,
    pub device: String,
}

/// The text of a [`HotspotStatus`].
pub struct HotspotView {
    pub active: bool,
    pub ssid: Seq<char>,
    pub device: Seq<char>,
}

impl DeepView for HotspotStatus {
    type V = HotspotView;

    open spec fn deep_view(&self) -> HotspotView {
        HotspotView { active: self.active, ssid: self.ssid@, device: self.device@ }
    }
}

} // verus!
