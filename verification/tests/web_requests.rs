use netman_h::nm::reply::{Reply, Step};
use netman_h::web::nm::devices::{
    activate_connection, create_hotspot, deactivate_connection, disconnect_wifi, forget_wifi,
    get_connections, get_devices, get_status, get_vpn_connections, hotspot_status, rescan_wifi,
    set_wifi_enabled, stop_hotspot, wifi_device_name,
};
use netman_h::web::nm::settings::{get_connection_details, update_connection};
use netman_h::web::nm::wifi::{
    connect_wifi, fetch_wifi_networks, list_wifi, parse_wifi_line, parse_wifi_output, scan_wifi,
};
use netman_h::web::nm::{Ipv4Config, Ipv6Config};

fn ok(out: &str) -> Reply {
    Reply::Exited { success: true, stdout: out.to_string(), stderr: String::new() }
}

fn fail(err: &str) -> Reply {
    Reply::Exited { success: false, stdout: String::new(), stderr: err.to_string() }
}

fn drive<T, E>(
    mut op: impl FnMut(&[Reply]) -> Step<T, E>,
    script: Vec<(Vec<&str>, Reply)>,
) -> Result<T, E> {
    let mut replies: Vec<Reply> = Vec::new();
    let mut script = script.into_iter();
    loop {
        match op(&replies) {
            Step::Run(args) => {
                let (want, reply) = script.next().expect("a command the script does not expect");
                assert_eq!(args, want);
                replies.push(reply);
            }
            Step::Done(result) => {
                assert!(script.next().is_none(), "commands of the script were not run");
                return result;
            }
        }
    }
}

fn status_table() -> Vec<&'static str> {
    vec!["-t", "-f", "DEVICE,TYPE,STATE", "device", "status"]
}

fn device_table() -> Vec<&'static str> {
    vec!["-t", "-f", "DEVICE,TYPE,STATE,CONNECTION", "device"]
}

fn profile_names() -> Vec<&'static str> {
    vec!["-t", "-f", "NAME,TYPE", "connection", "show"]
}

fn wifi_list() -> Vec<&'static str> {
    vec!["-t", "-f", "SSID,SIGNAL,SECURITY,IN-USE,BSSID", "device", "wifi", "list"]
}

fn get(field: &'static str, uuid: &'static str) -> Vec<&'static str> {
    vec!["-g", field, "connection", "show", uuid]
}

#[test]
fn a_wifi_line_is_read_field_by_field() {
    assert!(parse_wifi_line("Ho\\:me:72:WPA2:*:AA").is_none());
    let n = parse_wifi_line("Home:72:WPA2:*:AA\\:BB\\:CC").unwrap();
    assert_eq!(n.ssid, "Home");
    assert_eq!(n.signal, 72);
    assert_eq!(n.security, "WPA2");
    assert!(n.in_use);
    assert_eq!(n.bssid, "AA:BB:CC");
    assert!(!n.saved);
    let n = parse_wifi_line("Cafe:10:").unwrap();
    assert_eq!(n.security, "");
    assert!(!n.in_use);
    assert_eq!(n.bssid, "");
}

#[test]
fn a_wifi_line_without_a_number_or_a_name_is_dropped() {
    assert!(parse_wifi_line("Home:strong:WPA2").is_none());
    assert!(parse_wifi_line("Home:300:WPA2").is_none());
    assert!(parse_wifi_line(":50:WPA2").is_none());
    assert!(parse_wifi_line("Home:50").is_none());
}

#[test]
fn the_wifi_output_is_sorted_and_deduplicated() {
    let n = parse_wifi_output("A:20:WPA2\nB:90:WPA2\nA:20:WPA2\nbad line\nC:20:\nB:50:").unwrap();
    let names: Vec<(&str, u8)> = n.iter().map(|w| (w.ssid.as_str(), w.signal)).collect();
    assert_eq!(names, vec![("B", 90), ("A", 20), ("C", 20)]);
}

#[test]
fn listing_marks_networks_that_have_a_profile() {
    let r = drive(
        |rs| list_wifi(rs),
        vec![
            (profile_names(), ok("Home:wifi\nWired:ethernet\nHidden:wifi")),
            (get("802-11-wireless.ssid", "Home"), ok("HomeNet")),
            (get("802-11-wireless.ssid", "Hidden"), ok("")),
            (wifi_list(), ok("Cafe:40:WPA2: :AA\nHomeNet:60:WPA2:*:BB")),
        ],
    );
    let n = r.ok().unwrap();
    assert_eq!(n.len(), 2);
    assert_eq!(n[0].ssid, "HomeNet");
    assert!(n[0].saved);
    assert_eq!(n[1].ssid, "Cafe");
    assert!(!n[1].saved);
}

#[test]
fn listing_fails_when_a_profile_cannot_be_read() {
    let r = drive(
        |rs| list_wifi(rs),
        vec![(profile_names(), ok("Home:wifi")), (get("802-11-wireless.ssid", "Home"), fail("denied"))],
    );
    assert_eq!(r.err(), Some("denied".to_string()));
}

#[test]
fn scanning_rescans_first_and_stops_on_failure() {
    let r = drive(|rs| scan_wifi(rs), vec![(vec!["device", "wifi", "rescan"], fail("not allowed"))]);
    assert_eq!(r.err(), Some("not allowed".to_string()));
    let r = drive(
        |rs| scan_wifi(rs),
        vec![(vec!["device", "wifi", "rescan"], ok("")), (profile_names(), ok("")), (wifi_list(), ok("X:5:"))],
    );
    assert_eq!(r.ok().unwrap().len(), 1);
}

#[test]
fn fetching_rescans_only_when_asked() {
    let r = drive(|rs| fetch_wifi_networks(None, rs), vec![(profile_names(), ok("")), (wifi_list(), ok(""))]);
    assert!(r.ok().unwrap().is_empty());
    let r = drive(|rs| fetch_wifi_networks(Some(false), rs), vec![(profile_names(), ok("")), (wifi_list(), ok(""))]);
    assert!(r.is_ok());
    let r = drive(|rs| fetch_wifi_networks(Some(true), rs), vec![(vec!["device", "wifi", "rescan"], fail("busy"))]);
    assert_eq!(r.err(), Some("busy".to_string()));
}

#[test]
fn connecting_by_password_profile_or_directly() {
    let r = drive(
        |rs| connect_wifi("Cafe", Some("pw"), rs),
        vec![(vec!["device", "wifi", "connect", "Cafe", "password", "pw"], fail("Secrets were required"))],
    );
    assert_eq!(r.err(), Some("Secrets were required".to_string()));
    let r = drive(
        |rs| connect_wifi("HomeNet", Some(""), rs),
        vec![
            (profile_names(), ok("Home:wifi")),
            (get("802-11-wireless.ssid", "Home"), ok("HomeNet")),
            (vec!["connection", "up", "Home"], ok("")),
        ],
    );
    assert!(r.is_ok());
    let r = drive(
        |rs| connect_wifi("Other", None, rs),
        vec![(profile_names(), ok("")), (vec!["device", "wifi", "connect", "Other"], ok(""))],
    );
    assert!(r.is_ok());
}

#[test]
fn the_wifi_device_is_the_first_of_type_wifi() {
    let r = drive(|rs| wifi_device_name(rs), vec![(status_table(), ok("eth0:ethernet:connected\nwlan0:wifi:disconnected"))]);
    assert_eq!(r.ok(), Some("wlan0".to_string()));
    let r = drive(|rs| wifi_device_name(rs), vec![(status_table(), ok("eth0:ethernet:connected"))]);
    assert_eq!(r.err(), Some("No WiFi device found".to_string()));
}

#[test]
fn disconnecting_needs_a_wifi_device() {
    let r = drive(
        |rs| disconnect_wifi(rs),
        vec![(status_table(), ok("wlan0:wifi:connected")), (vec!["device", "disconnect", "wlan0"], ok(""))],
    );
    assert!(r.is_ok());
    let r = drive(|rs| disconnect_wifi(rs), vec![(status_table(), fail("boom"))]);
    assert_eq!(r.err(), Some("No WiFi device found".to_string()));
}

#[test]
fn simple_requests_run_one_command() {
    assert!(drive(|rs| rescan_wifi(rs), vec![(vec!["device", "wifi", "rescan"], ok(""))]).is_ok());
    assert!(drive(|rs| set_wifi_enabled(true, rs), vec![(vec!["radio", "wifi", "on"], ok(""))]).is_ok());
    assert!(drive(|rs| forget_wifi("Home", rs), vec![(vec!["connection", "delete", "Home"], ok(""))]).is_ok());
    assert!(drive(|rs| activate_connection("u", rs), vec![(vec!["connection", "up", "u"], ok(""))]).is_ok());
    let r = drive(
        |rs| deactivate_connection("u", rs),
        vec![(vec!["connection", "down", "u"], Reply::Exited { success: false, stdout: "x".to_string(), stderr: String::new() })],
    );
    assert_eq!(r.err(), Some("nmcli failed: x".to_string()));
}

#[test]
fn devices_are_listed_with_their_first_address() {
    let r = drive(
        |rs| get_devices(rs),
        vec![
            (device_table(), ok("wlan0:wifi:connected:Home\nlo:loopback:unmanaged:")),
            (vec!["-g", "IP4.ADDRESS", "device", "show", "wlan0"], ok("10.1.1.2/24\n10.1.1.3/24")),
        ],
    );
    let d = r.ok().unwrap();
    assert_eq!(d.len(), 1);
    assert_eq!(d[0].ip4, "10.1.1.2/24");
    assert_eq!(d[0].connection, "Home");
}

#[test]
fn the_status_of_a_connected_device() {
    let r = drive(
        |rs| get_status(rs),
        vec![
            (device_table(), ok("wlan0:wifi:connected:Home")),
            (vec!["-g", "IP4.ADDRESS", "device", "show", "wlan0"], ok("10.1.1.2/24")),
            (vec!["-g", "IP4.ADDRESS,IP4.GATEWAY", "device", "show", "wlan0"], ok("10.1.1.2/24\n10.1.1.1")),
            (vec!["radio", "wifi"], ok("enabled")),
        ],
    );
    let s = r.ok().unwrap();
    assert!(s.wifi_enabled);
    assert!(s.connected);
    assert_eq!(s.ssid, "Home");
    assert_eq!(s.ip4, "10.1.1.2/24");
    assert_eq!(s.gateway, "10.1.1.1");
    assert_eq!(s.device, "wlan0");
    assert_eq!(s.connection_type, "wifi");
}

#[test]
fn the_status_without_a_connection() {
    let r = drive(
        |rs| get_status(rs),
        vec![(device_table(), ok("")), (vec!["radio", "wifi"], ok("disabled"))],
    );
    let s = r.ok().unwrap();
    assert!(!s.wifi_enabled);
    assert!(!s.connected);
    assert_eq!(s.device, "");
}

#[test]
fn connections_and_vpns() {
    let script = || {
        vec![
            (vec!["-t", "-f", "NAME,UUID,TYPE,DEVICE", "connection", "show"], ok("Home:u1:wifi:wlan0\nWork:u2:vpn:\nlo:u3:loopback:lo")),
            (vec!["-t", "-f", "NAME", "connection", "show", "--active"], ok("Home")),
        ]
    };
    let c = drive(|rs| get_connections(rs), script()).ok().unwrap();
    assert_eq!(c.len(), 2);
    assert!(c[0].active);
    assert!(!c[1].active);
    let v = drive(|rs| get_vpn_connections(rs), script()).ok().unwrap();
    assert_eq!(v.len(), 1);
    assert_eq!(v[0].name, "Work");
    assert_eq!(v[0].uuid, "u2");
}

#[test]
fn hotspots_start_and_stop_on_the_wifi_device() {
    let r = drive(
        |rs| create_hotspot("Spot", "secret12", rs),
        vec![
            (status_table(), ok("wlan0:wifi:connected")),
            (
                vec!["device", "wifi", "hotspot", "ifname", "wlan0", "ssid", "Spot", "password", "secret12"],
                ok("Hotspot 'Spot' activated"),
            ),
        ],
    );
    assert_eq!(r.ok(), Some("Hotspot 'Spot' activated".to_string()));
    let r = drive(
        |rs| create_hotspot("Open", "", rs),
        vec![
            (status_table(), ok("wlan0:wifi:connected")),
            (vec!["device", "wifi", "hotspot", "ifname", "wlan0", "ssid", "Open"], ok("")),
        ],
    );
    assert!(r.is_ok());
    let r = drive(
        |rs| stop_hotspot(rs),
        vec![(status_table(), ok("wlan0:wifi:connected")), (vec!["device", "disconnect", "wlan0"], ok(""))],
    );
    assert!(r.is_ok());
}

#[test]
fn the_hotspot_status_is_read_from_the_device_blocks() {
    let query = vec!["-t", "-f", "GENERAL.CONNECTION,GENERAL.TYPE", "device", "show"];
    let r = drive(
        |rs| hotspot_status(rs),
        vec![
            (query.clone(), ok("GENERAL.CONNECTION:Wired\nGENERAL.TYPE:ethernet\n\nGENERAL.CONNECTION:Hotspot-1 \nGENERAL.TYPE:wifi")),
            (status_table(), ok("wlan0:wifi:connected")),
        ],
    );
    let h = r.ok().unwrap();
    assert!(h.active);
    assert_eq!(h.ssid, "Hotspot-1");
    assert_eq!(h.device, "wlan0");
    let r = drive(
        |rs| hotspot_status(rs),
        vec![(query, ok("GENERAL.CONNECTION:Wired\nGENERAL.TYPE:ethernet")), (status_table(), fail("x"))],
    );
    let h = r.ok().unwrap();
    assert!(!h.active);
    assert_eq!(h.ssid, "");
    assert_eq!(h.device, "");
}

#[test]
fn connection_details_are_gathered_field_by_field() {
    let r = drive(
        |rs| get_connection_details("u1", rs),
        vec![
            (get("connection.id", "u1"), ok("Home")),
            (get("connection.type", "u1"), ok("802-11-wireless")),
            (get("GENERAL.DEVICES", "u1"), fail("x")),
            (get("connection.autoconnect", "u1"), ok("no")),
            (get("ipv4.method", "u1"), ok("manual")),
            (get("ipv4.addresses", "u1"), ok("10.0.0.2/8")),
            (get("ipv4.gateway", "u1"), ok("10.0.0.1")),
            (get("ipv4.dns", "u1"), ok("1.1.1.1,9.9.9.9")),
            (get("ipv6.method", "u1"), ok("disabled")),
            (get("ipv6.addresses", "u1"), ok("")),
            (get("ipv6.gateway", "u1"), ok("")),
            (get("ipv6.dns", "u1"), ok("")),
            (get("802-11-wireless.mtu", "u1"), ok("auto")),
            (get("ethernet.mtu", "u1"), ok("1492")),
        ],
    );
    let d = r.ok().unwrap();
    assert_eq!(d.uuid, "u1");
    assert_eq!(d.name, "Home");
    assert_eq!(d.connection_type, "802-11-wireless");
    assert_eq!(d.device, "");
    assert!(!d.autoconnect);
    assert_eq!(d.mtu, Some(1492));
    assert_eq!(d.ipv4.method, "manual");
    assert_eq!(d.ipv4.dns, "1.1.1.1 9.9.9.9");
    assert_eq!(d.ipv4.mtu, Some(1492));
    assert_eq!(d.ipv6.method, "disabled");
}

#[test]
fn connection_details_need_a_name() {
    let r = drive(|rs| get_connection_details("u1", rs), vec![(get("connection.id", "u1"), fail("unknown"))]);
    assert_eq!(r.err(), Some("unknown".to_string()));
}

fn v4(method: &str, addresses: &str, gateway: &str, dns: &str) -> Ipv4Config {
    Ipv4Config {
        method: method.to_string(),
        addresses: addresses.to_string(),
        gateway: gateway.to_string(),
        dns: dns.to_string(),
        mtu: None,
    }
}

fn v6(method: &str, addresses: &str, gateway: &str, dns: &str) -> Ipv6Config {
    Ipv6Config {
        method: method.to_string(),
        addresses: addresses.to_string(),
        gateway: gateway.to_string(),
        dns: dns.to_string(),
    }
}

#[test]
fn updating_writes_both_address_families() {
    let r = drive(
        |rs| update_connection("u1", v4("manual", "10.0.0.2/8", "", "1.1.1.1 9.9.9.9"), v6("manual", "fd00::2/64", "fd00::1", ""), Some(1400), true, rs),
        vec![
            (get("connection.type", "u1"), ok("802-3-ethernet")),
            (
                vec![
                    "connection", "modify", "u1", "ipv4.method", "manual", "ipv4.addresses", "10.0.0.2/8",
                    "ipv4.dns", "1.1.1.1,9.9.9.9", "ipv6.method", "manual", "ipv6.addresses", "fd00::2/64",
                    "ipv6.gateway", "fd00::1", "connection.autoconnect", "yes", "ethernet.mtu", "1400",
                ],
                ok(""),
            ),
        ],
    );
    assert!(r.is_ok());
}

#[test]
fn updating_to_automatic_clears_ipv4_and_keeps_ipv6_method_names() {
    let r = drive(
        |rs| update_connection("u2", v4("auto", "x", "y", "z"), v6("disabled", "a", "b", "c"), None, false, rs),
        vec![(
            vec![
                "connection", "modify", "u2", "ipv4.method", "auto", "ipv4.addresses", "", "ipv4.gateway", "",
                "ipv4.dns", "", "ipv6.method", "disabled", "connection.autoconnect", "no",
            ],
            ok(""),
        )],
    );
    assert!(r.is_ok());
    let r = drive(
        |rs| update_connection("u3", v4("manual", "", "", ""), v6("link-local", "", "", ""), None, true, rs),
        vec![(
            vec![
                "connection", "modify", "u3", "ipv4.method", "manual", "ipv6.method", "auto",
                "connection.autoconnect", "yes",
            ],
            ok(""),
        )],
    );
    assert!(r.is_ok());
}

#[test]
fn the_status_ignores_a_disconnected_device() {
    let r = drive(
        |rs| get_status(rs),
        vec![
            (device_table(), ok("eth0:ethernet:disconnected:")),
            (vec!["-g", "IP4.ADDRESS", "device", "show", "eth0"], ok("")),
            (vec!["radio", "wifi"], ok("enabled")),
        ],
    );
    let s = r.ok().unwrap();
    assert!(s.wifi_enabled);
    assert!(!s.connected);
    assert_eq!(s.device, "");
}
