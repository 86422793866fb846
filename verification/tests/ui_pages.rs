use netman_h::nm::types::{ConnectionInfo, DeviceInfo, IpConfig, NetworkSnapshot, NmError, WifiNetwork};
use netman_h::ui::{
    action_feedback, active_profiles, connect_feedback, connect_request, connection_request,
    connection_row, entered_password, wifi_layout, mtu_field, opens_static, ethernet_profiles, form_config, or_dash, overview_rows,
    snapshot_error, status_line, wifi_row, wifi_sections, wifi_subtitle, ConnectionAction,
    ConnectionRowStatus, PageId, WifiAction, WifiRowStatus,
};

fn net(ssid: &str, signal: u8, security: &str, in_use: bool, saved: bool) -> WifiNetwork {
    WifiNetwork { ssid: ssid.to_string(), signal, security: security.to_string(), in_use, saved }
}

fn conn(name: &str, uuid: &str, ty: &str, active: bool) -> ConnectionInfo {
    ConnectionInfo {
        name: name.to_string(),
        uuid: uuid.to_string(),
        connection_type: ty.to_string(),
        device: String::new(),
        active,
        ssid: String::new(),
    }
}

fn snap(connected: bool, wifi_enabled: bool) -> NetworkSnapshot {
    let mut s = NetworkSnapshot::default();
    s.connected = connected;
    s.wifi_enabled = wifi_enabled;
    s
}

#[test]
fn pages_have_names_and_titles() {
    assert_eq!(PageId::Overview.as_str(), "overview");
    assert_eq!(PageId::Wifi.as_str(), "wifi");
    assert_eq!(PageId::Ethernet.as_str(), "ethernet");
    assert_eq!(PageId::Overview.label(), "Overview");
    assert_eq!(PageId::Wifi.label(), "WiFi");
    assert_eq!(PageId::Ethernet.label(), "Ethernet");
}

#[test]
fn pages_are_found_again_by_name() {
    for p in [PageId::Overview, PageId::Wifi, PageId::Ethernet] {
        assert!(PageId::from_str(p.as_str()) == Some(p));
    }
    assert!(PageId::from_str("vpn").is_none());
    assert!(PageId::from_str("Wifi").is_none());
}

#[test]
fn only_the_wifi_page_rescans() {
    assert!(PageId::Wifi.rescans());
    assert!(!PageId::Overview.rescans());
    assert!(!PageId::Ethernet.rescans());
}

#[test]
fn empty_values_show_a_dash() {
    assert_eq!(or_dash(""), "—");
    assert_eq!(or_dash("wlan0"), "wlan0");
}

#[test]
fn the_status_line_follows_the_connection() {
    let mut s = snap(true, true);
    s.connection_name = "Home".to_string();
    s.ip4 = "192.168.1.5/24".to_string();
    s.device = "wlan0".to_string();
    assert_eq!(status_line(&s), "Home · 192.168.1.5/24 · wlan0");
    assert_eq!(status_line(&snap(false, true)), "Not connected · WiFi on");
    assert_eq!(status_line(&snap(false, false)), "Not connected · WiFi off");
}

#[test]
fn the_overview_lists_state_then_devices() {
    let mut s = snap(true, true);
    s.connection_name = "Home".to_string();
    s.ip4 = "10.0.0.2/8".to_string();
    s.device = "wlan0".to_string();
    s.devices.push(DeviceInfo {
        name: "wlan0".to_string(),
        device_type: "wifi".to_string(),
        state: "connected".to_string(),
        connection: "Home".to_string(),
        ip4: String::new(),
    });
    let rows = overview_rows(&s);
    let pairs: Vec<(&str, &str)> = rows.iter().map(|(a, b)| (a.as_str(), b.as_str())).collect();
    assert_eq!(
        pairs,
        vec![
            ("Status", "Online"),
            ("Connection", "Home"),
            ("IPv4", "10.0.0.2/8"),
            ("Gateway", "—"),
            ("Device", "wlan0"),
            ("wlan0", "wifi · connected"),
        ]
    );
    let rows = overview_rows(&snap(false, false));
    assert_eq!(rows.len(), 5);
    assert_eq!(rows[0].1, "Offline");
}

#[test]
fn profiles_are_picked_by_state_and_type() {
    let c = vec![
        conn("Home", "u1", "802-11-wireless", true),
        conn("Wired", "u2", "802-3-ethernet", false),
        conn("Dock", "u3", "ethernet", true),
        conn("VPN", "u4", "vpn", false),
    ];
    let a: Vec<String> = active_profiles(&c).into_iter().map(|x| x.name).collect();
    assert_eq!(a, vec!["Home", "Dock"]);
    let e: Vec<String> = ethernet_profiles(&c).into_iter().map(|x| x.name).collect();
    assert_eq!(e, vec!["Wired", "Dock"]);
}

#[test]
fn wifi_sections_split_saved_from_others_strongest_first() {
    let n = vec![
        net("A", 30, "WPA2", false, true),
        net("B", 90, "Open", false, false),
        net("C", 70, "WPA2", true, true),
        net("D", 90, "WPA2", false, false),
        net("E", 30, "WPA2", false, true),
    ];
    let (saved, other) = wifi_sections(&n);
    let s: Vec<&str> = saved.iter().map(|x| x.ssid.as_str()).collect();
    let o: Vec<&str> = other.iter().map(|x| x.ssid.as_str()).collect();
    assert_eq!(s, vec!["C", "A", "E"]);
    assert_eq!(o, vec!["B", "D"]);
    assert_eq!(saved.len() + other.len(), n.len());
}

#[test]
fn subtitles_show_security_signal_and_saved() {
    assert_eq!(wifi_subtitle(&net("A", 7, "WPA2", false, true)), "WPA2 · 7% · Saved");
    assert_eq!(wifi_subtitle(&net("B", 100, "Open", false, false)), "Open · 100%");
}

#[test]
fn connecting_asks_for_a_password_only_when_needed() {
    match connect_request(&net("Cafe", 50, "WPA2", false, false)) {
        WifiAction::AskPassword(s) => assert_eq!(s, "Cafe"),
        other => panic!("unexpected {other:?}"),
    }
    match connect_request(&net("Home", 50, "WPA2", false, true)) {
        WifiAction::Connect { ssid, password } => {
            assert_eq!(ssid, "Home");
            assert!(password.is_none());
        }
        other => panic!("unexpected {other:?}"),
    }
    match connect_request(&net("Free", 50, "Open", false, false)) {
        WifiAction::Connect { ssid, password } => {
            assert_eq!(ssid, "Free");
            assert!(password.is_none());
        }
        other => panic!("unexpected {other:?}"),
    }
}

#[test]
fn wifi_rows_follow_the_busy_network() {
    let home = net("Home", 50, "WPA2", false, true);
    let r = wifi_row(&home, None);
    assert!(r.status == WifiRowStatus::Connect && r.forget && r.enabled);
    let r = wifi_row(&home, Some("Home"));
    assert!(r.status == WifiRowStatus::Connecting && !r.forget && !r.enabled);
    let r = wifi_row(&home, Some("Other"));
    assert!(r.status == WifiRowStatus::Connect && r.forget && !r.enabled);
    let r = wifi_row(&net("Home", 50, "WPA2", true, false), None);
    assert!(r.status == WifiRowStatus::Connected && !r.forget && r.enabled);
}

#[test]
fn connection_rows_follow_the_busy_profile() {
    let up = conn("Wired", "u2", "802-3-ethernet", true);
    let r = connection_row(&up, None);
    assert!(r.status == ConnectionRowStatus::Disconnect && r.enabled);
    let r = connection_row(&up, Some("u2"));
    assert!(r.status == ConnectionRowStatus::Working && !r.enabled);
    let r = connection_row(&up, Some("Wired"));
    assert!(r.status == ConnectionRowStatus::Working);
    let down = conn("Dock", "u3", "ethernet", false);
    let r = connection_row(&down, Some("u2"));
    assert!(r.status == ConnectionRowStatus::Connect && !r.enabled);
    match connection_request(&up) {
        ConnectionAction::Deactivate(u) => assert_eq!(u, "u2"),
        other => panic!("unexpected {other:?}"),
    }
    match connection_request(&down) {
        ConnectionAction::Activate(u) => assert_eq!(u, "u3"),
        other => panic!("unexpected {other:?}"),
    }
}

#[test]
fn the_editor_form_becomes_settings() {
    let c = form_config(true, "192.168.1.50/24", "192.168.1.1", "1.1.1.1 8.8.8.8", "1400", false);
    assert_eq!(c.method, "manual");
    assert_eq!(c.addresses, "192.168.1.50/24");
    assert_eq!(c.gateway, "192.168.1.1");
    assert_eq!(c.dns, "1.1.1.1 8.8.8.8");
    assert_eq!(c.mtu, Some(1400));
    assert!(!c.autoconnect);
    let c = form_config(false, "", "", "", "", true);
    assert_eq!(c.method, "auto");
    assert_eq!(c.mtu, None);
    assert!(c.autoconnect);
    assert_eq!(form_config(false, "", "", "", " 1500", true).mtu, None);
    assert_eq!(form_config(false, "", "", "", "+1500", true).mtu, Some(1500));
    assert_eq!(form_config(false, "", "", "", "4294967296", true).mtu, None);
    assert_eq!(form_config(false, "", "", "", "4294967295", true).mtu, Some(4294967295));
}

#[test]
fn an_empty_password_is_no_password() {
    assert_eq!(entered_password(""), None);
    assert_eq!(entered_password("secret"), Some("secret".to_string()));
}

#[test]
fn feedback_after_connecting() {
    let f = connect_feedback("Home", &Ok(()));
    assert_eq!(f.toast.as_deref(), Some("Connected to Home"));
    assert_eq!(f.reload, Some(true));
    let f = connect_feedback("Home", &Err(NmError::AuthRequired));
    assert_eq!(f.toast.as_deref(), Some("Enter password for this network"));
    assert_eq!(f.reload, None);
    let f = connect_feedback("Home", &Err(NmError::Message("timeout".to_string())));
    assert_eq!(f.toast.as_deref(), Some("timeout"));
    assert_eq!(f.reload, None);
}

#[test]
fn feedback_after_other_requests() {
    let f = action_feedback(&Ok(()), None);
    assert_eq!(f.toast, None);
    assert_eq!(f.reload, Some(false));
    let f = action_feedback(&Ok(()), Some("Settings saved"));
    assert_eq!(f.toast.as_deref(), Some("Settings saved"));
    assert_eq!(f.reload, Some(false));
    let f = action_feedback(&Err(NmError::NotFound), Some("Settings saved"));
    assert_eq!(f.toast.as_deref(), Some("Not found"));
    assert_eq!(f.reload, None);
    assert_eq!(snapshot_error(&NmError::AuthRequired), "Error: Authentication required");
}

#[test]
fn saving_the_editor_unchanged_keeps_the_settings() {
    for c in [
        IpConfig {
            method: "manual".to_string(),
            addresses: "192.168.1.50/24".to_string(),
            gateway: "192.168.1.1".to_string(),
            dns: "1.1.1.1 8.8.8.8".to_string(),
            mtu: Some(1400),
            autoconnect: false,
        },
        IpConfig {
            method: "auto".to_string(),
            addresses: String::new(),
            gateway: String::new(),
            dns: String::new(),
            mtu: None,
            autoconnect: true,
        },
    ] {
        let mtu = mtu_field(c.mtu);
        let back = form_config(opens_static(&c), &c.addresses, &c.gateway, &c.dns, &mtu, c.autoconnect);
        assert_eq!(back.method, c.method);
        assert_eq!(back.addresses, c.addresses);
        assert_eq!(back.gateway, c.gateway);
        assert_eq!(back.dns, c.dns);
        assert_eq!(back.mtu, c.mtu);
        assert_eq!(back.autoconnect, c.autoconnect);
    }
}

#[test]
fn the_editor_opens_with_the_settings_shown() {
    assert_eq!(mtu_field(Some(1500)), "1500");
    assert_eq!(mtu_field(Some(0)), "0");
    assert_eq!(mtu_field(None), "");
    let mut c = IpConfig::default();
    assert!(!opens_static(&c));
    c.method = "manual".to_string();
    assert!(opens_static(&c));
    c.method = "Manual".to_string();
    assert!(!opens_static(&c));
}

#[test]
fn the_wifi_page_shows_headings_for_what_it_lists() {
    let off = snap(false, false);
    let l = wifi_layout(&off);
    assert!(l.off_note && !l.saved_heading && !l.available_heading && !l.empty_note);
    let empty = snap(false, true);
    let l = wifi_layout(&empty);
    assert!(!l.off_note && !l.saved_heading && !l.available_heading && l.empty_note);
    let mut some = snap(false, true);
    some.wifi_networks.push(net("A", 10, "WPA2", false, true));
    let l = wifi_layout(&some);
    assert!(!l.off_note && l.saved_heading && !l.available_heading && !l.empty_note);
    some.wifi_networks.push(net("B", 10, "Open", false, false));
    let l = wifi_layout(&some);
    assert!(l.saved_heading && l.available_heading && !l.empty_note);
}
