//! The values that the network panel shows and edits.
use vstd::prelude::*;

verus! {

/// One network device, as `nmcli device` lists it.
#[derive(Clone, Debug)]
pub struct DeviceInfo {
    pub name: String,
    pub device_type: String,
    pub state: String,
    pub connection: String,
    pub ip4: String,
}

/// The text of a [`DeviceInfo`].
pub struct DeviceView {
    pub name: Seq<char>,
    pub device_type: Seq<char>,
    pub state: Seq<char>,
    pub connection: Seq<char>,
    pub ip4: Seq<char>,
}

impl DeepView for DeviceInfo {
    type V = DeviceView;

    open spec fn deep_view(&self) -> DeviceView {
        DeviceView {
            name: self.name@,
            device_type: self.device_type@,
            state: self.state@,
            connection: self.connection@,
            ip4: self.ip4@,
        }
    }
}

/// One saved connection profile.
#[derive(Clone, Debug)]
pub struct ConnectionInfo {
    pub name: String,
    pub uuid: String,
    pub connection_type: String,
    pub device: String,
    pub active: bool,
    pub ssid: String,
}

/// The text of a [`ConnectionInfo`].
pub struct ConnectionView {
    pub name: Seq<char>,
    pub uuid: Seq<char>,
    pub connection_type: Seq<char>,
    pub device: Seq<char>,
    pub active: bool,
    pub ssid: Seq<char>,
}

impl DeepView for ConnectionInfo {
    type V = ConnectionView;

    open spec fn deep_view(&self) -> ConnectionView {
        ConnectionView {
            name: self.name@,
            uuid: self.uuid@,
            connection_type: self.connection_type@,
            device: self.device@,
            active: self.active,
            ssid: self.ssid@,
        }
    }
}

/// One WiFi network in range.
#[derive(Clone, Debug)]
pub struct WifiNetwork {
    pub ssid: String,
    pub signal: u8,
    pub security: String,
    pub in_use: bool,
    pub saved: bool,
}

/// The text of a [`WifiNetwork`].
pub struct WifiView {
    pub ssid: Seq<char>,
    pub signal: u8,
    pub security: Seq<char>,
    pub in_use: bool,
    pub saved: bool,
}

impl DeepView for WifiNetwork {
    type V = WifiView;

    open spec fn deep_view(&self) -> WifiView {
        WifiView {
            ssid: self.ssid@,
            signal: self.signal,
            security: self.security@,
            in_use: self.in_use,
            saved: self.saved,
        }
    }
}

/// The IPv4 settings of a connection profile.
#[derive(Clone, Debug)]
pub struct IpConfig {
    pub method: String,
    pub addresses: String,
    pub gateway: String,
    pub dns: String,
    pub mtu: Option<u32>,
    pub autoconnect: bool,
}

/// The text of an [`IpConfig`].
pub struct IpConfigView {
    pub method: Seq<char>,
    pub addresses: Seq<char>,
    pub gateway: Seq<char>,
    pub dns: Seq<char>,
    pub mtu: Option<u32>,
    pub autoconnect: bool,
}

impl DeepView for IpConfig {
    type V = IpConfigView;

    open spec fn deep_view(&self) -> IpConfigView {
        IpConfigView {
            method: self.method@,
            addresses: self.addresses@,
            gateway: self.gateway@,
            dns: self.dns@,
            mtu: self.mtu,
            autoconnect: self.autoconnect,
        }
    }
}

impl Default for IpConfig {
    fn default() -> (c: IpConfig)
        ensures
            c.method@ == Seq::<char>::empty(),
            c.addresses@ == Seq::<char>::empty(),
            c.gateway@ == Seq::<char>::empty(),
            c.dns@ == Seq::<char>::empty(),
            c.mtu is None,
            !c.autoconnect,
    {
        IpConfig {
            method: String::new(),
            addresses: String::new(),
            gateway: String::new(),
            dns: String::new(),
            mtu: None,
            autoconnect: false,
        }
    }
}

/// Everything the panel shows at one moment.
#[derive(Clone, Debug)]
pub struct NetworkSnapshot {
    pub wifi_enabled: bool,
    pub connected: bool,
    pub connection_name: String,
    pub ip4: String,
    pub gateway: String,
    pub device: String,
    pub connection_type: String,
    pub devices: Vec<DeviceInfo>,
    pub connections: Vec<ConnectionInfo>,
    pub wifi_networks: Vec<WifiNetwork>,
}

/// The text of a [`NetworkSnapshot`].
pub struct SnapshotView {
    pub wifi_enabled: bool,
    pub connected: bool,
    pub connection_name: Seq<char>,
    pub ip4: Seq<char>,
    pub gateway: Seq<char>,
    pub device: Seq<char>,
    pub connection_type: Seq<char>,
    pub devices: Seq<DeviceView>,
    pub connections: Seq<ConnectionView>,
    pub wifi_networks: Seq<WifiView>,
}

impl DeepView for NetworkSnapshot {
    type V = SnapshotView;

    open spec fn deep_view(&self) -> SnapshotView {
        SnapshotView {
            wifi_enabled: self.wifi_enabled,
            connected: self.connected,
            connection_name: self.connection_name@,
            ip4: self.ip4@,
            gateway: self.gateway@,
            device: self.device@,
            connection_type: self.connection_type@,
            devices: self.devices.deep_view(),
            connections: self.connections.deep_view(),
            wifi_networks: self.wifi_networks.deep_view(),
        }
    }
}

impl Default for NetworkSnapshot {
    fn default() -> (s: NetworkSnapshot)
        ensures
            !s.wifi_enabled,
            !s.connected,
            s.connection_name@ == Seq::<char>::empty(),
            s.ip4@ == Seq::<char>::empty(),
            s.gateway@ == Seq::<char>::empty(),
            s.device@ == Seq::<char>::empty(),
            s.connection_type@ == Seq::<char>::empty(),
            s.devices@.len() == 0,
            s.connections@.len() == 0,
            s.wifi_networks@.len() == 0,
    {
        NetworkSnapshot {
            wifi_enabled: false,
            connected: false,
            connection_name: String::new(),
            ip4: String::new(),
            gateway: String::new(),
            device: String::new(),
            connection_type: String::new(),
            devices: Vec::new(),
            connections: Vec::new(),
            wifi_networks: Vec::new(),
        }
    }
}

/// Why a request to NetworkManager failed.
#[derive(Clone, Debug)]
pub enum NmError {
    Message(String),
    AuthRequired,
    NotFound,
}

/// The text of an [`NmError`].
pub enum NmErrorView {
    Message(Seq<char>),
    AuthRequired,
    NotFound,
}

impl DeepView for NmError {
    type V = NmErrorView;

    open spec fn deep_view(&self) -> NmErrorView {
        match self {
            NmError::Message(m) => NmErrorView::Message(m@),
            NmError::AuthRequired => NmErrorView::AuthRequired,
            NmError::NotFound => NmErrorView::NotFound,
        }
    }
}

/// The message that the error shows to the user.
pub open spec fn error_text(e: NmErrorView) -> Seq<char> {
    match e {
        NmErrorView::Message(m) => m,
        NmErrorView::AuthRequired => "Authentication required"@,
        NmErrorView::NotFound => "Not found"@,
    }
}

impl NmError {
    /// The message that the error shows to the user.
    pub fn message(&self) -> (s: String)
        ensures
            s@ == error_text(self.deep_view()),
    {
        match self {
            NmError::Message(m) => m.clone(),
            NmError::AuthRequired => String::from_str("Authentication required"),
            NmError::NotFound => String::from_str("Not found"),
        }
    }
}


impl ConnectionInfo {
    /// A copy of the profile.
    pub fn copy(&self) -> (r: ConnectionInfo)
        ensures
            r.deep_view() == self.deep_view(),
    {
        ConnectionInfo {
            name: self.name.clone(),
            uuid: self.uuid.clone(),
            connection_type: self.connection_type.clone(),
            device: self.device.clone(),
            active: self.active,
            ssid: self.ssid.clone(),
        }
    }
}

impl WifiNetwork {
    /// A copy of the network.
    pub fn copy(&self) -> (r: WifiNetwork)
        ensures
            r.deep_view() == self.deep_view(),
    {
        WifiNetwork {
            ssid: self.ssid.clone(),
            signal: self.signal,
            security: self.security.clone(),
            in_use: self.in_use,
            saved: self.saved,
        }
    }
}

} // verus!
