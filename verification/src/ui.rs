//! What the panel's pages show and what their buttons ask for, decided from
//! a [`NetworkSnapshot`] alone; the widgets that show it live with the
//! application.
use vstd::prelude::*;
use crate::text::{
    chars_of, decimal, decimal_chars, eq_str, lemma_filter_all, lemma_filter_partition,
    lemma_filter_take_next, lit, parse_u32_chars,
    parse_unsigned, push_all, push_str, string_of,
};
use crate::nm::types::{
    ConnectionInfo, ConnectionView, DeviceView, IpConfig, IpConfigView, NetworkSnapshot, NmError,
    NmErrorView, SnapshotView, WifiNetwork, WifiView, error_text,
};
use crate::nm::cli::{sort_by_signal, sorted_by_signal};
use crate::nm::laws::{law_mtu_round_trip, law_sort_by_signal};

verus! {

/// The pages of the panel.
#[derive(Clone, Copy, Debug, PartialEq, Eq, Structural)]
pub enum PageId {
    Overview,
    Wifi,
    Ethernet,
}

/// The name under which a page is registered.
pub open spec fn page_name(p: PageId) -> Seq<char> {
    match p {
        PageId::Overview => "overview"@,
        PageId::Wifi => "wifi"@,
        PageId::Ethernet => "ethernet"@,
    }
}

/// The title of a page.
pub open spec fn page_label(p: PageId) -> Seq<char> {
    match p {
        PageId::Overview => "Overview"@,
        PageId::Wifi => "WiFi"@,
        PageId::Ethernet => "Ethernet"@,
    }
}

/// The page registered under `name`, if any.
pub open spec fn page_named(name: Seq<char>) -> Option<PageId> {
    if name == "overview"@ {
        Some(PageId::Overview)
    } else if name == "wifi"@ {
        Some(PageId::Wifi)
    } else if name == "ethernet"@ {
        Some(PageId::Ethernet)
    } else {
        None
    }
}

impl PageId {
    /// The name under which the page is registered.
    pub fn as_str(self) -> (s: &'static str)
        ensures
            s@ == page_name(self),
    {
        match self {
            PageId::Overview => "overview",
            PageId::Wifi => "wifi",
            PageId::Ethernet => "ethernet",
        }
    }

    /// The title of the page.
    pub fn label(self) -> (s: &'static str)
        ensures
            s@ == page_label(self),
    {
        match self {
            PageId::Overview => "Overview",
            PageId::Wifi => "WiFi",
            PageId::Ethernet => "Ethernet",
        }
    }

    /// The page registered under `name`, if any.
    pub fn from_str(name: &str) -> (r: Option<PageId>)
        ensures
            r == page_named(name@),
    {
        let c = chars_of(name);
        if eq_str(c.as_slice(), "overview") {
            Some(PageId::Overview)
        } else if eq_str(c.as_slice(), "wifi") {
            Some(PageId::Wifi)
        } else if eq_str(c.as_slice(), "ethernet") {
            Some(PageId::Ethernet)
        } else {
            None
        }
    }

    /// Whether reloading while the page is shown also rescans for WiFi networks.
    pub fn rescans(self) -> (r: bool)
        ensures
            r == (self == PageId::Wifi),
    {
        match self {
            PageId::Wifi => true,
            _ => false,
        }
    }
}

/// Every page is found again under the name it is registered with.
pub proof fn law_page_name_round_trip(p: PageId)
    ensures
        page_named(page_name(p)) == Some(p),
{
    reveal_strlit("overview");
    reveal_strlit("wifi");
    reveal_strlit("ethernet");
    assert("overview"@[0] != "ethernet"@[0]);
    assert("overview"@.len() != "wifi"@.len());
    assert("ethernet"@.len() != "wifi"@.len());
}

/// The text, or a dash where it is empty.
pub open spec fn dash(s: Seq<char>) -> Seq<char> {
    if s.len() == 0 {
        "—"@
    } else {
        s
    }
}

/// The text, or a dash where it is empty.
pub fn or_dash(value: &str) -> (r: String)
    ensures
        r@ == dash(value@),
{
    let c = chars_of(value);
    if c.len() == 0 {
        String::from_str("—")
    } else {
        value.to_string()
    }
}

/// The status line above the pages.
pub open spec fn status_text(s: SnapshotView) -> Seq<char> {
    if s.connected {
        s.connection_name + " · "@ + s.ip4 + " · "@ + s.device
    } else if s.wifi_enabled {
        "Not connected · WiFi on"@
    } else {
        "Not connected · WiFi off"@
    }
}

/// The status line above the pages.
pub fn status_line(snapshot: &NetworkSnapshot) -> (r: String)
    ensures
        r@ == status_text(snapshot.deep_view()),
{
    if snapshot.connected {
        let mut v = chars_of(snapshot.connection_name.as_str());
        push_str(&mut v, " · ");
        push_str(&mut v, snapshot.ip4.as_str());
        push_str(&mut v, " · ");
        push_str(&mut v, snapshot.device.as_str());
        string_of(v.as_slice())
    } else if snapshot.wifi_enabled {
        String::from_str("Not connected · WiFi on")
    } else {
        String::from_str("Not connected · WiFi off")
    }
}

/// The row that the overview shows for a device: its name, then its type and state.
pub open spec fn device_row(d: DeviceView) -> (Seq<char>, Seq<char>) {
    (d.name, d.device_type + " · "@ + d.state)
}

/// The rows of the overview page, title and value: the connection state, the
/// active connection's name, address, gateway and device, then one row per device.
pub open spec fn overview_rows_of(s: SnapshotView) -> Seq<(Seq<char>, Seq<char>)> {
    seq![
        ("Status"@, if s.connected { "Online"@ } else { "Offline"@ }),
        ("Connection"@, dash(s.connection_name)),
        ("IPv4"@, dash(s.ip4)),
        ("Gateway"@, dash(s.gateway)),
        ("Device"@, dash(s.device)),
    ] + s.devices.map_values(|d: DeviceView| device_row(d))
}

/// The rows of the overview page, title and value.
pub fn overview_rows(snapshot: &NetworkSnapshot) -> (rows: Vec<(String, String)>)
    ensures
        rows.deep_view() == overview_rows_of(snapshot.deep_view()),
{
    let mut rows: Vec<(String, String)> = Vec::new();
    let state = if snapshot.connected {
        lit("Online")
    } else {
        lit("Offline")
    };
    rows.push((lit("Status"), state));
    rows.push((lit("Connection"), or_dash(snapshot.connection_name.as_str())));
    rows.push((lit("IPv4"), or_dash(snapshot.ip4.as_str())));
    rows.push((lit("Gateway"), or_dash(snapshot.gateway.as_str())));
    rows.push((lit("Device"), or_dash(snapshot.device.as_str())));
    let ghost sv = snapshot.deep_view();
    let ghost head = overview_rows_of(sv).take(5);
    let ghost f = |d: DeviceView| device_row(d);
    assert(rows.deep_view() =~= head);
    let mut i: usize = 0;
    while i < snapshot.devices.len()
        invariant
            sv == snapshot.deep_view(),
            head == overview_rows_of(sv).take(5),
            f == (|d: DeviceView| device_row(d)),
            i <= snapshot.devices@.len(),
            rows.deep_view() == head + sv.devices.take(i as int).map_values(f),
        decreases snapshot.devices@.len() - i,
    {
        let d = &snapshot.devices[i];
        let mut v = chars_of(d.device_type.as_str());
        push_str(&mut v, " · ");
        push_str(&mut v, d.state.as_str());
        let ghost before = rows.deep_view();
        let row = (d.name.clone(), string_of(v.as_slice()));
        assert(row.deep_view() == device_row(d.deep_view()));
        rows.push(row);
        proof {
            assert(rows.deep_view() =~= before.push(device_row(d.deep_view())));
            assert(sv.devices[i as int] == d.deep_view());
            assert(sv.devices.take(i + 1).map_values(f) =~= sv.devices.take(i as int).map_values(f).push(
                device_row(sv.devices[i as int]),
            ));
        }
        i += 1;
        assert(rows.deep_view() =~= head + sv.devices.take(i as int).map_values(f));
    }
    assert(sv.devices.take(i as int) =~= sv.devices);
    assert(overview_rows_of(sv) =~= head + sv.devices.map_values(f));
    rows
}

/// A profile that is up.
pub open spec fn is_active() -> spec_fn(ConnectionView) -> bool {
    |c: ConnectionView| c.active
}

/// A wired profile.
pub open spec fn is_ethernet() -> spec_fn(ConnectionView) -> bool {
    |c: ConnectionView| c.connection_type == "802-3-ethernet"@ || c.connection_type == "ethernet"@
}

/// The profiles that are up, in order.
pub fn active_profiles(connections: &[ConnectionInfo]) -> (r: Vec<ConnectionInfo>)
    ensures
        r.deep_view() == connections.deep_view().filter(is_active()),
{
    let ghost cv = connections.deep_view();
    let mut r: Vec<ConnectionInfo> = Vec::new();
    let mut i: usize = 0;
    while i < connections.len()
        invariant
            cv == connections.deep_view(),
            i <= connections@.len(),
            r.deep_view() == cv.take(i as int).filter(is_active()),
        decreases connections@.len() - i,
    {
        proof {
            lemma_filter_take_next(cv, is_active(), i as int);
        }
        let c = &connections[i];
        assert(cv[i as int] == c.deep_view());
        if c.active {
            r.push(c.copy());
        }
        i += 1;
        assert(r.deep_view() =~= cv.take(i as int).filter(is_active()));
    }
    assert(cv.take(i as int) =~= cv);
    r
}

/// The wired profiles, in order.
pub fn ethernet_profiles(connections: &[ConnectionInfo]) -> (r: Vec<ConnectionInfo>)
    ensures
        r.deep_view() == connections.deep_view().filter(is_ethernet()),
{
    let ghost cv = connections.deep_view();
    let mut r: Vec<ConnectionInfo> = Vec::new();
    let mut i: usize = 0;
    while i < connections.len()
        invariant
            cv == connections.deep_view(),
            i <= connections@.len(),
            r.deep_view() == cv.take(i as int).filter(is_ethernet()),
        decreases connections@.len() - i,
    {
        proof {
            lemma_filter_take_next(cv, is_ethernet(), i as int);
        }
        let c = &connections[i];
        assert(cv[i as int] == c.deep_view());
        let ty = chars_of(c.connection_type.as_str());
        if eq_str(ty.as_slice(), "802-3-ethernet") || eq_str(ty.as_slice(), "ethernet") {
            r.push(c.copy());
        }
        i += 1;
        assert(r.deep_view() =~= cv.take(i as int).filter(is_ethernet()));
    }
    assert(cv.take(i as int) =~= cv);
    r
}

/// A saved network.
pub open spec fn is_saved() -> spec_fn(WifiView) -> bool {
    |n: WifiView| n.saved
}

/// A network that is not saved.
pub open spec fn is_unsaved() -> spec_fn(WifiView) -> bool {
    |n: WifiView| !n.saved
}

fn networks_where(networks: &[WifiNetwork], saved: bool) -> (r: Vec<WifiNetwork>)
    ensures
        r.deep_view() == networks.deep_view().filter(if saved { is_saved() } else { is_unsaved() }),
{
    let ghost nv = networks.deep_view();
    let ghost p = if saved { is_saved() } else { is_unsaved() };
    let mut r: Vec<WifiNetwork> = Vec::new();
    let mut i: usize = 0;
    while i < networks.len()
        invariant
            nv == networks.deep_view(),
            p == (if saved { is_saved() } else { is_unsaved() }),
            i <= networks@.len(),
            r.deep_view() == nv.take(i as int).filter(p),
        decreases networks@.len() - i,
    {
        proof {
            lemma_filter_take_next(nv, p, i as int);
        }
        let n = &networks[i];
        assert(nv[i as int] == n.deep_view());
        if n.saved == saved {
            r.push(n.copy());
        }
        i += 1;
        assert(r.deep_view() =~= nv.take(i as int).filter(p));
    }
    assert(nv.take(i as int) =~= nv);
    r
}

/// The first section of the WiFi page: the saved networks, strongest signal
/// first, networks of equal signal in the order given.
pub open spec fn saved_section(networks: Seq<WifiView>) -> Seq<WifiView> {
    sort_by_signal(networks.filter(is_saved()))
}

/// The second section of the WiFi page: the networks that are not saved,
/// strongest signal first, networks of equal signal in the order given.
pub open spec fn other_section(networks: Seq<WifiView>) -> Seq<WifiView> {
    sort_by_signal(networks.filter(is_unsaved()))
}

/// The two sections of the WiFi page: the saved networks, then the others.
pub fn wifi_sections(networks: &[WifiNetwork]) -> (r: (Vec<WifiNetwork>, Vec<WifiNetwork>))
    ensures
        r.0.deep_view() == saved_section(networks.deep_view()),
        r.1.deep_view() == other_section(networks.deep_view()),
{
    let saved = networks_where(networks, true);
    let other = networks_where(networks, false);
    (sorted_by_signal(&saved), sorted_by_signal(&other))
}

/// The WiFi page shows every network once: the saved ones in its first
/// section and the others in its second, each section strongest signal first.
pub proof fn law_wifi_sections(networks: Seq<WifiView>)
    ensures
        saved_section(networks).to_multiset().add(other_section(networks).to_multiset())
            == networks.to_multiset(),
        forall|i: int| 0 <= i < saved_section(networks).len() ==> #[trigger] saved_section(networks)[i].saved,
        forall|i: int| 0 <= i < other_section(networks).len() ==> !#[trigger] other_section(networks)[i].saved,
        forall|i: int, j: int|
            0 <= i < j < saved_section(networks).len() ==> #[trigger] saved_section(networks)[i].signal
                >= #[trigger] saved_section(networks)[j].signal,
        forall|i: int, j: int|
            0 <= i < j < other_section(networks).len() ==> #[trigger] other_section(networks)[i].signal
                >= #[trigger] other_section(networks)[j].signal,
{
    broadcast use vstd::seq_lib::group_to_multiset_ensures;

    let f = networks.filter(is_saved());
    let g = networks.filter(is_unsaved());
    let a = saved_section(networks);
    let b = other_section(networks);
    law_sort_by_signal(f);
    law_sort_by_signal(g);
    lemma_filter_all(networks, |n: WifiView| true);
    lemma_filter_partition(networks, |n: WifiView| true, is_saved(), is_unsaved());
    assert forall|i: int| 0 <= i < a.len() implies #[trigger] a[i].saved by {
        assert(a.contains(a[i]));
        assert(f.to_multiset().count(a[i]) > 0);
        let k = choose|k: int| 0 <= k < f.len() && f[k] == a[i];
        networks.lemma_filter_pred(is_saved(), k);
    }
    assert forall|i: int| 0 <= i < b.len() implies !#[trigger] b[i].saved by {
        assert(b.contains(b[i]));
        assert(g.to_multiset().count(b[i]) > 0);
        let k = choose|k: int| 0 <= k < g.len() && g[k] == b[i];
        networks.lemma_filter_pred(is_unsaved(), k);
    }
}

/// The notes and headings of the WiFi page.
#[derive(Clone, Copy, Debug, PartialEq, Eq, Structural)]
pub struct WifiLayout {
    /// "WiFi is off": the page shows nothing else.
    pub off_note: bool,
    /// The "Saved" heading, above the first section.
    pub saved_heading: bool,
    /// The "Available" heading, above the second section.
    pub available_heading: bool,
    /// "No networks found": no network is in range.
    pub empty_note: bool,
}

/// The notes and headings of the WiFi page: with WiFi off only the note that
/// says so; else each section's heading where the section is not empty, and
/// the note that no network was found where none is listed.
pub open spec fn wifi_layout_of(s: SnapshotView) -> WifiLayout {
    if !s.wifi_enabled {
        WifiLayout { off_note: true, saved_heading: false, available_heading: false, empty_note: false }
    } else {
        WifiLayout {
            off_note: false,
            saved_heading: saved_section(s.wifi_networks).len() > 0,
            available_heading: other_section(s.wifi_networks).len() > 0,
            empty_note: s.wifi_networks.len() == 0,
        }
    }
}

/// The notes and headings of the WiFi page.
pub fn wifi_layout(snapshot: &NetworkSnapshot) -> (r: WifiLayout)
    ensures
        r == wifi_layout_of(snapshot.deep_view()),
{
    let ghost nv = snapshot.wifi_networks.deep_view();
    proof {
        law_sort_by_signal(nv.filter(is_saved()));
        law_sort_by_signal(nv.filter(is_unsaved()));
        broadcast use vstd::seq_lib::group_to_multiset_ensures;
        assert(nv.filter(is_saved()).to_multiset().len() == nv.filter(is_saved()).len());
        assert(nv.filter(is_unsaved()).to_multiset().len() == nv.filter(is_unsaved()).len());
    }
    if !snapshot.wifi_enabled {
        return WifiLayout { off_note: true, saved_heading: false, available_heading: false, empty_note: false };
    }
    let mut any_saved = false;
    let mut any_other = false;
    let mut i: usize = 0;
    while i < snapshot.wifi_networks.len()
        invariant
            nv == snapshot.wifi_networks.deep_view(),
            i <= nv.len(),
            any_saved == (nv.take(i as int).filter(is_saved()).len() > 0),
            any_other == (nv.take(i as int).filter(is_unsaved()).len() > 0),
        decreases nv.len() - i,
    {
        proof {
            lemma_filter_take_next(nv, is_saved(), i as int);
            lemma_filter_take_next(nv, is_unsaved(), i as int);
        }
        let n = &snapshot.wifi_networks[i];
        assert(nv[i as int] == n.deep_view());
        if n.saved {
            any_saved = true;
        } else {
            any_other = true;
        }
        i += 1;
    }
    assert(nv.take(i as int) =~= nv);
    WifiLayout {
        off_note: false,
        saved_heading: any_saved,
        available_heading: any_other,
        empty_note: snapshot.wifi_networks.len() == 0,
    }
}

/// The line under a network's name: its security, its signal in percent, and
/// whether it is saved.
pub open spec fn wifi_subtitle_of(n: WifiView) -> Seq<char> {
    n.security + " · "@ + decimal(n.signal as nat) + "%"@ + if n.saved {
        " · Saved"@
    } else {
        Seq::<char>::empty()
    }
}

/// The line under a network's name.
pub fn wifi_subtitle(network: &WifiNetwork) -> (r: String)
    ensures
        r@ == wifi_subtitle_of(network.deep_view()),
{
    let mut v = chars_of(network.security.as_str());
    push_str(&mut v, " · ");
    let d = decimal_chars(network.signal as u32);
    push_all(&mut v, d.as_slice());
    push_str(&mut v, "%");
    if network.saved {
        push_str(&mut v, " · Saved");
    }
    string_of(v.as_slice())
}

/// What the WiFi page asks of the window.
#[derive(Clone, Debug)]
pub enum WifiAction {
    /// Switch the radio on or off.
    Toggle(bool),
    /// Connect to a network, with a password where one was entered.
    Connect { ssid: String, password: Option<String> },
    /// Disconnect the WiFi device.
    Disconnect,
    /// Delete the saved profile of a network.
    Forget(String),
    /// Scan again.
    Rescan,
    /// Ask for the password of a network before connecting.
    AskPassword(String),
}

/// The text of a [`WifiAction`].
pub enum WifiActionView {
    Toggle(bool),
    Connect { ssid: Seq<char>, password: Option<Seq<char>> },
    Disconnect,
    Forget(Seq<char>),
    Rescan,
    AskPassword(Seq<char>),
}

impl DeepView for WifiAction {
    type V = WifiActionView;

    open spec fn deep_view(&self) -> WifiActionView {
        match self {
            WifiAction::Toggle(on) => WifiActionView::Toggle(*on),
            WifiAction::Connect { ssid, password } => WifiActionView::Connect {
                ssid: ssid@,
                password: password.deep_view(),
            },
            WifiAction::Disconnect => WifiActionView::Disconnect,
            WifiAction::Forget(ssid) => WifiActionView::Forget(ssid@),
            WifiAction::Rescan => WifiActionView::Rescan,
            WifiAction::AskPassword(ssid) => WifiActionView::AskPassword(ssid@),
        }
    }
}

/// What a click on a network's Connect button asks for: the password first for
/// a secured network that is not saved, else a connection without one.
pub open spec fn connect_request_of(n: WifiView) -> WifiActionView {
    if n.security != "Open"@ && !n.saved {
        WifiActionView::AskPassword(n.ssid)
    } else {
        WifiActionView::Connect { ssid: n.ssid, password: None }
    }
}

/// What a click on a network's Connect button asks for.
pub fn connect_request(network: &WifiNetwork) -> (r: WifiAction)
    ensures
        r.deep_view() == connect_request_of(network.deep_view()),
{
    let sec = chars_of(network.security.as_str());
    if !eq_str(sec.as_slice(), "Open") && !network.saved {
        WifiAction::AskPassword(network.ssid.clone())
    } else {
        WifiAction::Connect { ssid: network.ssid.clone(), password: None }
    }
}

/// What stands at the right of a network's row.
#[derive(Clone, Copy, Debug, PartialEq, Eq, Structural)]
pub enum WifiRowStatus {
    /// The network is in use.
    Connected,
    /// A connection to the network is under way.
    Connecting,
    /// A Connect button.
    Connect,
}

/// How a network's row looks.
#[derive(Clone, Copy, Debug, PartialEq, Eq, Structural)]
pub struct WifiRow {
    pub status: WifiRowStatus,
    /// Whether a Forget button is shown.
    pub forget: bool,
    /// Whether the buttons can be clicked.
    pub enabled: bool,
}

/// How a network's row looks while `busy` names what is being worked on, if anything.
pub open spec fn wifi_row_of(n: WifiView, busy: Option<Seq<char>>) -> WifiRow {
    let is_busy = busy == Some(n.ssid);
    WifiRow {
        status: if n.in_use {
            WifiRowStatus::Connected
        } else if is_busy {
            WifiRowStatus::Connecting
        } else {
            WifiRowStatus::Connect
        },
        forget: n.saved && !is_busy,
        enabled: busy is None,
    }
}

/// How a network's row looks while `busy` names what is being worked on, if anything.
pub fn wifi_row(network: &WifiNetwork, busy: Option<&str>) -> (r: WifiRow)
    ensures
        r == wifi_row_of(network.deep_view(), busy.deep_view()),
{
    let is_busy = match busy {
        Some(b) => {
            let ssid = chars_of(network.ssid.as_str());
            eq_str(ssid.as_slice(), b)
        },
        None => false,
    };
    let status = if network.in_use {
        WifiRowStatus::Connected
    } else if is_busy {
        WifiRowStatus::Connecting
    } else {
        WifiRowStatus::Connect
    };
    WifiRow { status, forget: network.saved && !is_busy, enabled: busy.is_none() }
}

/// What the profile pages ask of the window.
#[derive(Clone, Debug)]
pub enum ConnectionAction {
    /// Bring the profile with this UUID up.
    Activate(String),
    /// Take the profile with this UUID down.
    Deactivate(String),
    /// Open the IPv4 editor for the profile with this UUID.
    Edit(String),
    /// Store these IPv4 settings in the profile and bring it up.
    Save { uuid: String, config: IpConfig },
}

/// The text of a [`ConnectionAction`].
pub enum ConnectionActionView {
    Activate(Seq<char>),
    Deactivate(Seq<char>),
    Edit(Seq<char>),
    Save { uuid: Seq<char>, config: IpConfigView },
}

impl DeepView for ConnectionAction {
    type V = ConnectionActionView;

    open spec fn deep_view(&self) -> ConnectionActionView {
        match self {
            ConnectionAction::Activate(u) => ConnectionActionView::Activate(u@),
            ConnectionAction::Deactivate(u) => ConnectionActionView::Deactivate(u@),
            ConnectionAction::Edit(u) => ConnectionActionView::Edit(u@),
            ConnectionAction::Save { uuid, config } => ConnectionActionView::Save {
                uuid: uuid@,
                config: config.deep_view(),
            },
        }
    }
}

/// What a click on a profile's main button asks for: down where it is up, else up.
pub open spec fn connection_request_of(c: ConnectionView) -> ConnectionActionView {
    if c.active {
        ConnectionActionView::Deactivate(c.uuid)
    } else {
        ConnectionActionView::Activate(c.uuid)
    }
}

/// What a click on a profile's main button asks for.
pub fn connection_request(conn: &ConnectionInfo) -> (r: ConnectionAction)
    ensures
        r.deep_view() == connection_request_of(conn.deep_view()),
{
    if conn.active {
        ConnectionAction::Deactivate(conn.uuid.clone())
    } else {
        ConnectionAction::Activate(conn.uuid.clone())
    }
}

/// What stands at the right of a profile's row, before its IP button.
#[derive(Clone, Copy, Debug, PartialEq, Eq, Structural)]
pub enum ConnectionRowStatus {
    /// Work on the profile is under way.
    Working,
    /// A Disconnect button.
    Disconnect,
    /// A Connect button.
    Connect,
}

/// How a profile's row looks.
#[derive(Clone, Copy, Debug, PartialEq, Eq, Structural)]
pub struct ConnectionRow {
    pub status: ConnectionRowStatus,
    /// Whether the buttons can be clicked.
    pub enabled: bool,
}

/// How a profile's row looks while `busy` names what is being worked on, if
/// anything: the profile is busy where `busy` is its UUID or its name.
pub open spec fn connection_row_of(c: ConnectionView, busy: Option<Seq<char>>) -> ConnectionRow {
    let is_busy = busy == Some(c.uuid) || busy == Some(c.name);
    ConnectionRow {
        status: if is_busy {
            ConnectionRowStatus::Working
        } else if c.active {
            ConnectionRowStatus::Disconnect
        } else {
            ConnectionRowStatus::Connect
        },
        enabled: busy is None,
    }
}

/// How a profile's row looks while `busy` names what is being worked on, if anything.
pub fn connection_row(conn: &ConnectionInfo, busy: Option<&str>) -> (r: ConnectionRow)
    ensures
        r == connection_row_of(conn.deep_view(), busy.deep_view()),
{
    let is_busy = match busy {
        Some(b) => {
            let uuid = chars_of(conn.uuid.as_str());
            let name = chars_of(conn.name.as_str());
            eq_str(uuid.as_slice(), b) || eq_str(name.as_slice(), b)
        },
        None => false,
    };
    let status = if is_busy {
        ConnectionRowStatus::Working
    } else if conn.active {
        ConnectionRowStatus::Disconnect
    } else {
        ConnectionRowStatus::Connect
    };
    ConnectionRow { status, enabled: busy.is_none() }
}

/// The settings that the IPv4 editor saves: the method `manual` where static
/// addressing is chosen, else `auto`; the texts as entered; the MTU where its
/// text is a number that fits in 32 bits.
pub open spec fn form_config_of(
    manual: bool,
    address: Seq<char>,
    gateway: Seq<char>,
    dns: Seq<char>,
    mtu: Seq<char>,
    autoconnect: bool,
) -> IpConfigView {
    IpConfigView {
        method: if manual { "manual"@ } else { "auto"@ },
        addresses: address,
        gateway: gateway,
        dns: dns,
        mtu: match parse_unsigned(mtu, u32::MAX as nat) {
            Some(n) => Some(n as u32),
            None => None,
        },
        autoconnect: autoconnect,
    }
}

/// The settings that the IPv4 editor saves.
pub fn form_config(
    manual: bool,
    address: &str,
    gateway: &str,
    dns: &str,
    mtu: &str,
    autoconnect: bool,
) -> (c: IpConfig)
    ensures
        c.deep_view() == form_config_of(manual, address@, gateway@, dns@, mtu@, autoconnect),
{
    let m = chars_of(mtu);
    IpConfig {
        method: if manual {
            lit("manual")
        } else {
            lit("auto")
        },
        addresses: address.to_string(),
        gateway: gateway.to_string(),
        dns: dns.to_string(),
        mtu: parse_u32_chars(m.as_slice()),
        autoconnect,
    }
}

/// The text of the MTU field as the editor opens: the number, or nothing.
pub open spec fn mtu_text(mtu: Option<u32>) -> Seq<char> {
    match mtu {
        Some(m) => decimal(m as nat),
        None => Seq::<char>::empty(),
    }
}

/// Whether the IPv4 editor opens with static addressing chosen: the method is `manual`.
pub fn opens_static(config: &IpConfig) -> (r: bool)
    ensures
        r == (config.method@ == "manual"@),
{
    let m = chars_of(config.method.as_str());
    eq_str(m.as_slice(), "manual")
}

/// The text of the MTU field as the editor opens.
pub fn mtu_field(mtu: Option<u32>) -> (r: String)
    ensures
        r@ == mtu_text(mtu),
{
    match mtu {
        Some(m) => {
            let d = decimal_chars(m);
            string_of(d.as_slice())
        },
        None => String::new(),
    }
}

/// Saving the IPv4 editor as it opened gives back the settings it opened
/// with, where their method is `manual` or `auto`.
pub proof fn law_editor_round_trip(c: IpConfigView)
    requires
        c.method == "manual"@ || c.method == "auto"@,
    ensures
        form_config_of(c.method == "manual"@, c.addresses, c.gateway, c.dns, mtu_text(c.mtu), c.autoconnect)
            == c,
{
    match c.mtu {
        Some(m) => law_mtu_round_trip(m),
        None => {},
    }
}

/// The password typed into the prompt, where anything was typed.
pub fn entered_password(text: &str) -> (r: Option<String>)
    ensures
        r.deep_view() == (if text@.len() == 0 {
            None
        } else {
            Some(text@)
        }),
{
    let c = chars_of(text);
    if c.len() == 0 {
        None
    } else {
        Some(text.to_string())
    }
}

/// What the window does once a request has ended: a message to show, if any,
/// and a reload, if any (`true` where the reload also rescans for WiFi networks).
#[derive(Clone, Debug)]
pub struct Feedback {
    pub toast: Option<String>,
    pub reload: Option<bool>,
}

/// The text of a [`Feedback`].
pub struct FeedbackView {
    pub toast: Option<Seq<char>>,
    pub reload: Option<bool>,
}

impl DeepView for Feedback {
    type V = FeedbackView;

    open spec fn deep_view(&self) -> FeedbackView {
        FeedbackView { toast: self.toast.deep_view(), reload: self.reload }
    }
}

/// The outcome of a request, as a result of no value.
pub open spec fn result_view(r: Result<(), NmError>) -> Result<(), NmErrorView> {
    match r {
        Ok(()) => Ok(()),
        Err(e) => Err(e.deep_view()),
    }
}

/// After a connection to `ssid`: on success a message and a reload with a
/// rescan; where a password is missing, a request for it; else the error.
pub open spec fn connect_feedback_of(ssid: Seq<char>, r: Result<(), NmErrorView>) -> FeedbackView {
    match r {
        Ok(()) => FeedbackView { toast: Some("Connected to "@ + ssid), reload: Some(true) },
        Err(NmErrorView::AuthRequired) => FeedbackView {
            toast: Some("Enter password for this network"@),
            reload: None,
        },
        Err(e) => FeedbackView { toast: Some(error_text(e)), reload: None },
    }
}

/// After a connection to `ssid`.
pub fn connect_feedback(ssid: &str, result: &Result<(), NmError>) -> (f: Feedback)
    ensures
        f.deep_view() == connect_feedback_of(ssid@, result_view(*result)),
{
    match result {
        Ok(()) => {
            let mut v = chars_of("Connected to ");
            push_str(&mut v, ssid);
            Feedback { toast: Some(string_of(v.as_slice())), reload: Some(true) }
        },
        Err(NmError::AuthRequired) => Feedback {
            toast: Some(lit("Enter password for this network")),
            reload: None,
        },
        Err(e) => Feedback { toast: Some(e.message()), reload: None },
    }
}

/// After any other request: on success the message `done`, if any, and a
/// reload without a rescan; else the error.
pub open spec fn action_feedback_of(r: Result<(), NmErrorView>, done: Option<Seq<char>>) -> FeedbackView {
    match r {
        Ok(()) => FeedbackView { toast: done, reload: Some(false) },
        Err(e) => FeedbackView { toast: Some(error_text(e)), reload: None },
    }
}

/// After any other request.
pub fn action_feedback(result: &Result<(), NmError>, done: Option<&str>) -> (f: Feedback)
    ensures
        f.deep_view() == action_feedback_of(result_view(*result), done.deep_view()),
{
    match result {
        Ok(()) => {
            let toast = match done {
                Some(d) => Some(d.to_string()),
                None => None,
            };
            Feedback { toast, reload: Some(false) }
        },
        Err(e) => Feedback { toast: Some(e.message()), reload: None },
    }
}

/// The message shown where the panel could not be read.
pub fn snapshot_error(err: &NmError) -> (s: String)
    ensures
        s@ == "Error: "@ + error_text(err.deep_view()),
{
    let mut v = chars_of("Error: ");
    let m = err.message();
    push_str(&mut v, m.as_str());
    string_of(v.as_slice())
}


/// What a click on Connect asks for depends on the network alone: a saved
/// network, or an open one, is connected to at once with no password; a
/// secured network that is not saved asks for its password first. Either
/// way the request names the network.
pub proof fn law_connect_request(n: WifiView)
    ensures
        n.saved ==> connect_request_of(n) == (WifiActionView::Connect { ssid: n.ssid, password: None }),
        n.security == "Open"@ ==> connect_request_of(n) == (WifiActionView::Connect { ssid: n.ssid, password: None }),
        !n.saved && n.security != "Open"@ ==> connect_request_of(n) == WifiActionView::AskPassword(n.ssid),
{
}

/// A network's row: a network in use shows that it is connected; one that is
/// being worked on (and not in use) shows that it is connecting; any other
/// shows a Connect button. Forget is offered for a saved network that is not
/// being worked on, and for no other. While anything is being worked on, no
/// button can be clicked.
pub proof fn law_wifi_row(n: WifiView, busy: Option<Seq<char>>)
    ensures
        n.in_use ==> wifi_row_of(n, busy).status == WifiRowStatus::Connected,
        !n.in_use && busy == Some(n.ssid) ==> wifi_row_of(n, busy).status == WifiRowStatus::Connecting,
        !n.in_use && busy != Some(n.ssid) ==> wifi_row_of(n, busy).status == WifiRowStatus::Connect,
        wifi_row_of(n, busy).forget == (n.saved && busy != Some(n.ssid)),
        wifi_row_of(n, busy).enabled == (busy is None),
{
}

/// A profile's row: a profile being worked on (named by its UUID or its name)
/// shows that it is working; one that is up offers Disconnect, which takes it
/// down; one that is down offers Connect, which brings it up, by its UUID.
/// While anything is being worked on, no button can be clicked.
pub proof fn law_connection_row(c: ConnectionView, busy: Option<Seq<char>>)
    ensures
        (busy == Some(c.uuid) || busy == Some(c.name)) ==> connection_row_of(c, busy).status
            == ConnectionRowStatus::Working,
        !(busy == Some(c.uuid) || busy == Some(c.name)) && c.active ==> connection_row_of(c, busy).status
            == ConnectionRowStatus::Disconnect,
        !(busy == Some(c.uuid) || busy == Some(c.name)) && !c.active ==> connection_row_of(c, busy).status
            == ConnectionRowStatus::Connect,
        connection_row_of(c, busy).enabled == (busy is None),
        c.active ==> connection_request_of(c) == ConnectionActionView::Deactivate(c.uuid),
        !c.active ==> connection_request_of(c) == ConnectionActionView::Activate(c.uuid),
{
}

/// The profiles picked for the overview and the Ethernet page: the overview
/// keeps exactly the profiles that are up, the Ethernet page exactly those of
/// type `802-3-ethernet` or `ethernet`, each in the order given.
pub proof fn law_profile_pages(cs: Seq<ConnectionView>)
    ensures
        cs.filter(is_active()) == cs.filter(|c: ConnectionView| c.active),
        cs.filter(is_ethernet()) == cs.filter(
            |c: ConnectionView| c.connection_type == "802-3-ethernet"@ || c.connection_type == "ethernet"@,
        ),
{
    assert(is_active() =~= (|c: ConnectionView| c.active));
    assert(is_ethernet() =~= (|c: ConnectionView| c.connection_type == "802-3-ethernet"@ || c.connection_type
        == "ethernet"@));
}

/// The status line: with a connection, its name, address and device, joined
/// by ` · `; without one, "Not connected" and whether WiFi is on or off.
pub proof fn law_status_line(s: SnapshotView)
    ensures
        s.connected ==> status_text(s) == s.connection_name + " · "@ + s.ip4 + " · "@ + s.device,
        !s.connected && s.wifi_enabled ==> status_text(s) == "Not connected · WiFi on"@,
        !s.connected && !s.wifi_enabled ==> status_text(s) == "Not connected · WiFi off"@,
{
}

/// The overview shows five rows of the connection state (whether it is
/// online, and the connection, address, gateway and device, a dash for each
/// that is empty), then one row per device in order: its name, then its type
/// and state.
pub proof fn law_overview_rows(s: SnapshotView)
    ensures
        overview_rows_of(s).len() == 5 + s.devices.len(),
        overview_rows_of(s)[0] == ("Status"@, if s.connected { "Online"@ } else { "Offline"@ }),
        overview_rows_of(s)[1] == ("Connection"@, if s.connection_name.len() == 0 { "—"@ } else { s.connection_name }),
        overview_rows_of(s)[2] == ("IPv4"@, if s.ip4.len() == 0 { "—"@ } else { s.ip4 }),
        overview_rows_of(s)[3] == ("Gateway"@, if s.gateway.len() == 0 { "—"@ } else { s.gateway }),
        overview_rows_of(s)[4] == ("Device"@, if s.device.len() == 0 { "—"@ } else { s.device }),
        forall|i: int|
            0 <= i < s.devices.len() ==> #[trigger] overview_rows_of(s)[5 + i] == (
                s.devices[i].name,
                s.devices[i].device_type + " · "@ + s.devices[i].state,
            ),
{
}

/// After a connection: success says which network was joined and reloads
/// with a rescan; a missing password asks for it; any other failure shows its
/// message; neither failure reloads. After any other request: success shows
/// the given message, if any, and reloads without a rescan; failure shows its
/// message and does not reload.
pub proof fn law_feedback(ssid: Seq<char>, r: Result<(), NmErrorView>, done: Option<Seq<char>>)
    ensures
        r is Ok ==> connect_feedback_of(ssid, r) == (FeedbackView { toast: Some("Connected to "@ + ssid), reload: Some(true) }),
        r == Err::<(), NmErrorView>(NmErrorView::AuthRequired) ==> connect_feedback_of(ssid, r) == (FeedbackView {
            toast: Some("Enter password for this network"@),
            reload: None,
        }),
        (r matches Err(e) && e != NmErrorView::AuthRequired) ==> connect_feedback_of(ssid, r) == (FeedbackView {
            toast: Some(error_text(r->Err_0)),
            reload: None,
        }),
        r is Ok ==> action_feedback_of(r, done) == (FeedbackView { toast: done, reload: Some(false) }),
        r is Err ==> action_feedback_of(r, done) == (FeedbackView { toast: Some(error_text(r->Err_0)), reload: None }),
{
}


/// The WiFi page with WiFi off shows only the note that says so; with WiFi
/// on, the "Saved" heading exactly when some network is saved, the
/// "Available" heading exactly when some network is not, and the note that
/// none was found exactly when the list is empty.
pub proof fn law_wifi_layout(s: SnapshotView)
    ensures
        !s.wifi_enabled ==> wifi_layout_of(s) == (WifiLayout {
            off_note: true,
            saved_heading: false,
            available_heading: false,
            empty_note: false,
        }),
        s.wifi_enabled ==> {
            &&& !wifi_layout_of(s).off_note
            &&& wifi_layout_of(s).saved_heading == exists|i: int|
                0 <= i < s.wifi_networks.len() && (#[trigger] s.wifi_networks[i]).saved
            &&& wifi_layout_of(s).available_heading == exists|i: int|
                0 <= i < s.wifi_networks.len() && !(#[trigger] s.wifi_networks[i]).saved
            &&& wifi_layout_of(s).empty_note == (s.wifi_networks.len() == 0)
        },
{
    broadcast use vstd::seq_lib::group_to_multiset_ensures;

    let nv = s.wifi_networks;
    law_sort_by_signal(nv.filter(is_saved()));
    law_sort_by_signal(nv.filter(is_unsaved()));
    assert(nv.filter(is_saved()).to_multiset().len() == nv.filter(is_saved()).len());
    assert(nv.filter(is_unsaved()).to_multiset().len() == nv.filter(is_unsaved()).len());
    if exists|i: int| 0 <= i < nv.len() && (#[trigger] nv[i]).saved {
        let i = choose|i: int| 0 <= i < nv.len() && (#[trigger] nv[i]).saved;
        nv.lemma_filter_contains(is_saved(), i);
    }
    if nv.filter(is_saved()).len() > 0 {
        nv.lemma_filter_pred(is_saved(), 0);
        assert(nv.filter(is_saved()).contains(nv.filter(is_saved())[0]));
        nv.lemma_filter_contains_rev(is_saved(), nv.filter(is_saved())[0]);
    }
    if exists|i: int| 0 <= i < nv.len() && !(#[trigger] nv[i]).saved {
        let i = choose|i: int| 0 <= i < nv.len() && !(#[trigger] nv[i]).saved;
        nv.lemma_filter_contains(is_unsaved(), i);
    }
    if nv.filter(is_unsaved()).len() > 0 {
        nv.lemma_filter_pred(is_unsaved(), 0);
        assert(nv.filter(is_unsaved()).contains(nv.filter(is_unsaved())[0]));
        nv.lemma_filter_contains_rev(is_unsaved(), nv.filter(is_unsaved())[0]);
    }
}

/// The line under a network's name: its security, ` · `, its signal in
/// decimal followed by `%`, and ` · Saved` for a saved network.
pub proof fn law_wifi_subtitle(n: WifiView)
    ensures
        n.saved ==> wifi_subtitle_of(n) == n.security + " · "@ + decimal(n.signal as nat) + "%"@ + " · Saved"@,
        !n.saved ==> wifi_subtitle_of(n) == n.security + " · "@ + decimal(n.signal as nat) + "%"@,
{
    if !n.saved {
        let a = n.security + " · "@ + decimal(n.signal as nat) + "%"@;
        assert(a + Seq::<char>::empty() =~= a);
    }
}

} // verus!
