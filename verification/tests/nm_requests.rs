use netman_h::nm::cli::{
    activate_connection, connect_wifi, deactivate_connection, disconnect_wifi, forget_wifi,
    list_connections, list_devices, list_wifi, read_ipv4_config, set_wifi_enabled, snapshot,
    write_ipv4_config,
};
use netman_h::nm::reply::{Reply, Step};
use netman_h::nm::service::NetworkService;
use netman_h::nm::types::{ConnectionInfo, IpConfig, NmError};

fn ok(out: &str) -> Reply {
    Reply::Exited { success: true, stdout: out.to_string(), stderr: String::new() }
}

fn fail(err: &str) -> Reply {
    Reply::Exited { success: false, stdout: String::new(), stderr: err.to_string() }
}

/// Runs a conversation against a script of expected commands and their replies.
fn drive<T, E>(
    mut op: impl FnMut(&[Reply]) -> Step<T, E>,
    script: Vec<(Vec<&str>, Reply)>,
) -> Result<T, E> {
    let mut replies: Vec<Reply> = Vec::new();
    let mut script = script.into_iter();
    loop {
        match op(&replies) {
            Step::Run(args) => {
                let (want, reply) = script.next().expect("a command the script does not expect");
                assert_eq!(args, want);
                replies.push(reply);
            }
            Step::Done(result) => {
                assert!(script.next().is_none(), "commands of the script were not run");
                return result;
            }
        }
    }
}

fn device_table() -> Vec<&'static str> {
    vec!["-t", "-f", "DEVICE,TYPE,STATE,CONNECTION", "device"]
}

fn ip4_of(name: &str) -> Vec<&str> {
    vec!["-g", "IP4.ADDRESS", "device", "show", name]
}

fn connection_table() -> Vec<&'static str> {
    vec!["-t", "-f", "NAME,UUID,TYPE,DEVICE", "connection", "show"]
}

fn active_names() -> Vec<&'static str> {
    vec!["-t", "-f", "NAME", "connection", "show", "--active"]
}

fn ssid_of(uuid: &str) -> Vec<&str> {
    vec!["-g", "802-11-wireless.ssid", "connection", "show", uuid]
}

fn wifi_list() -> Vec<&'static str> {
    vec!["-t", "-f", "SSID,SIGNAL,SECURITY,IN-USE,BSSID", "device", "wifi", "list"]
}

fn get(field: &'static str, uuid: &'static str) -> Vec<&'static str> {
    vec!["-g", field, "connection", "show", uuid]
}

fn profile(name: &str, uuid: &str, ty: &str, active: bool, ssid: &str) -> ConnectionInfo {
    ConnectionInfo {
        name: name.to_string(),
        uuid: uuid.to_string(),
        connection_type: ty.to_string(),
        device: String::new(),
        active,
        ssid: ssid.to_string(),
    }
}

#[test]
fn devices_skip_loopback_and_take_the_first_address() {
    let r = drive(
        |rs| list_devices(rs),
        vec![
            (
                device_table(),
                ok("wlan0:wifi:connected:Home\nlo:loopback:connected (externally):lo\neth0:ethernet:unavailable:"),
            ),
            (ip4_of("wlan0"), ok("192.168.1.5/24\n10.0.0.2/8")),
            (ip4_of("eth0"), fail("Error: Device 'eth0' not found.")),
        ],
    );
    let devices = r.ok().unwrap();
    assert_eq!(devices.len(), 2);
    assert_eq!(devices[0].name, "wlan0");
    assert_eq!(devices[0].device_type, "wifi");
    assert_eq!(devices[0].state, "connected");
    assert_eq!(devices[0].connection, "Home");
    assert_eq!(devices[0].ip4, "192.168.1.5/24");
    assert_eq!(devices[1].name, "eth0");
    assert_eq!(devices[1].state, "unavailable");
    assert_eq!(devices[1].connection, "");
    assert_eq!(devices[1].ip4, "");
}

#[test]
fn devices_fail_when_the_table_fails() {
    let r = drive(|rs| list_devices(rs), vec![(device_table(), fail("NetworkManager is not running."))]);
    match r {
        Err(NmError::Message(m)) => assert_eq!(m, "NetworkManager is not running."),
        _ => panic!("expected the error of the run"),
    }
}

#[test]
fn connections_are_marked_active_and_wifi_ones_get_their_ssid() {
    let r = drive(
        |rs| list_connections(rs),
        vec![
            (
                connection_table(),
                ok("Home:uuid-1:802-11-wireless:wlan0\nWired:uuid-2:802-3-ethernet:\nlo:uuid-3:loopback:lo"),
            ),
            (active_names(), ok("Home\nlo")),
            (ssid_of("uuid-1"), ok("HomeNet")),
        ],
    );
    let c = r.ok().unwrap();
    assert_eq!(c.len(), 2);
    assert_eq!(c[0].name, "Home");
    assert_eq!(c[0].uuid, "uuid-1");
    assert_eq!(c[0].connection_type, "802-11-wireless");
    assert_eq!(c[0].device, "wlan0");
    assert!(c[0].active);
    assert_eq!(c[0].ssid, "HomeNet");
    assert_eq!(c[1].name, "Wired");
    assert!(!c[1].active);
    assert_eq!(c[1].ssid, "");
}

#[test]
fn connections_survive_a_failed_active_list() {
    let r = drive(
        |rs| list_connections(rs),
        vec![
            (connection_table(), ok("Office:uuid-9:wifi:")),
            (active_names(), fail("boom")),
            (ssid_of("uuid-9"), fail("no such property")),
        ],
    );
    let c = r.ok().unwrap();
    assert_eq!(c.len(), 1);
    assert!(!c[0].active);
    assert_eq!(c[0].ssid, "");
}

#[test]
fn wifi_list_sorts_dedups_and_marks_saved() {
    let conns = vec![
        profile("Home", "uuid-1", "802-11-wireless", true, "HomeNet"),
        profile("Cafe", "uuid-2", "wifi", false, ""),
        profile("Wired", "uuid-3", "802-3-ethernet", false, "Guest"),
    ];
    let r = drive(
        |rs| list_wifi(true, &conns, rs),
        vec![
            (vec!["device", "wifi", "rescan"], fail("Scanning not allowed")),
            (
                wifi_list(),
                ok("Cafe:40:--: :AA\nHomeNet:80:WPA2:*:BB\nHomeNet:60:WPA2: :CC\n:30:WPA2: :DD\nGu\\est:abc::: \nLab:40:WPA1: :EE"),
            ),
        ],
    );
    let n = r.ok().unwrap();
    let names: Vec<&str> = n.iter().map(|w| w.ssid.as_str()).collect();
    assert_eq!(names, vec!["HomeNet", "Cafe", "Lab", "Guest"]);
    assert_eq!(n[0].signal, 80);
    assert!(n[0].in_use);
    assert!(n[0].saved);
    assert_eq!(n[0].security, "WPA2");
    assert_eq!(n[1].security, "Open");
    assert!(n[1].saved);
    assert!(!n[1].in_use);
    assert_eq!(n[2].security, "WPA1");
    assert!(!n[2].saved);
    assert_eq!(n[3].signal, 0);
    assert_eq!(n[3].security, "Open");
    assert!(!n[3].saved);
}

#[test]
fn wifi_list_without_rescan_fails_with_the_list() {
    let r = drive(|rs| list_wifi(false, &[], rs), vec![(wifi_list(), fail("Wi-Fi is disabled"))]);
    match r {
        Err(NmError::Message(m)) => assert_eq!(m, "Wi-Fi is disabled"),
        _ => panic!("expected the error of the list"),
    }
}

#[test]
fn radio_is_switched_on_and_off() {
    let r = drive(|rs| set_wifi_enabled(true, rs), vec![(vec!["radio", "wifi", "on"], ok(""))]);
    assert!(r.is_ok());
    let r = drive(|rs| set_wifi_enabled(false, rs), vec![(vec!["radio", "wifi", "off"], ok(""))]);
    assert!(r.is_ok());
}

#[test]
fn a_password_is_handed_to_the_connect_command() {
    let r = drive(
        |rs| connect_wifi("Cafe", Some("hunter22"), rs),
        vec![(vec!["device", "wifi", "connect", "Cafe", "password", "hunter22"], ok("Device 'wlan0' successfully activated"))],
    );
    assert!(r.is_ok());
}

#[test]
fn a_refused_password_asks_for_authentication() {
    let r = drive(
        |rs| connect_wifi("Cafe", Some("wrong"), rs),
        vec![(
            vec!["device", "wifi", "connect", "Cafe", "password", "wrong"],
            fail("Error: Connection activation failed: Secrets were required, but not provided."),
        )],
    );
    assert!(matches!(r, Err(NmError::AuthRequired)));
}

#[test]
fn a_saved_network_is_brought_up_by_its_profile() {
    let r = drive(
        |rs| connect_wifi("HomeNet", None, rs),
        vec![
            (connection_table(), ok("Home:uuid-1:802-11-wireless:")),
            (active_names(), ok("")),
            (ssid_of("uuid-1"), ok("HomeNet")),
            (vec!["connection", "up", "uuid-1"], ok("")),
        ],
    );
    assert!(r.is_ok());
}

#[test]
fn an_empty_password_counts_as_none() {
    let r = drive(
        |rs| connect_wifi("Home", Some(""), rs),
        vec![
            (connection_table(), ok("Home:uuid-1:802-11-wireless:")),
            (active_names(), ok("")),
            (ssid_of("uuid-1"), ok("")),
            (vec!["connection", "up", "uuid-1"], ok("")),
        ],
    );
    assert!(r.is_ok());
}

#[test]
fn an_unknown_network_is_joined_directly() {
    let r = drive(
        |rs| connect_wifi("Airport", None, rs),
        vec![
            (connection_table(), ok("Wired:uuid-2:802-3-ethernet:")),
            (active_names(), ok("")),
            (vec!["device", "wifi", "connect", "Airport"], ok("")),
        ],
    );
    assert!(r.is_ok());
}

#[test]
fn forgetting_deletes_the_matching_profile() {
    let r = drive(
        |rs| forget_wifi("HomeNet", rs),
        vec![
            (connection_table(), ok("Home:uuid-1:802-11-wireless:")),
            (active_names(), ok("")),
            (ssid_of("uuid-1"), ok("HomeNet")),
            (vec!["connection", "delete", "uuid-1"], ok("")),
        ],
    );
    assert!(r.is_ok());
}

#[test]
fn forgetting_an_unknown_network_is_not_found() {
    let r = drive(
        |rs| forget_wifi("Nowhere", rs),
        vec![(connection_table(), ok("Wired:uuid-2:802-3-ethernet:")), (active_names(), ok(""))],
    );
    assert!(matches!(r, Err(NmError::NotFound)));
}

#[test]
fn disconnect_uses_the_wifi_device() {
    let r = drive(
        |rs| disconnect_wifi(rs),
        vec![
            (device_table(), ok("eth0:ethernet:connected:Wired\nwlan0:wifi:connected:Home")),
            (ip4_of("eth0"), ok("")),
            (ip4_of("wlan0"), ok("")),
            (vec!["device", "disconnect", "wlan0"], ok("")),
        ],
    );
    assert!(r.is_ok());
}

#[test]
fn disconnect_without_a_wifi_device_fails() {
    let r = drive(
        |rs| disconnect_wifi(rs),
        vec![(device_table(), ok("eth0:ethernet:connected:Wired")), (ip4_of("eth0"), ok(""))],
    );
    match r {
        Err(NmError::Message(m)) => assert_eq!(m, "No WiFi device found"),
        _ => panic!("expected the missing device"),
    }
}

#[test]
fn profiles_go_up_and_down_by_uuid() {
    let r = drive(|rs| activate_connection("uuid-7", rs), vec![(vec!["connection", "up", "uuid-7"], ok(""))]);
    assert!(r.is_ok());
    let r = drive(|rs| deactivate_connection("uuid-7", rs), vec![(vec!["connection", "down", "uuid-7"], ok(""))]);
    assert!(r.is_ok());
}

#[test]
fn ipv4_settings_are_read_with_the_ethernet_mtu_as_fallback() {
    let r = drive(
        |rs| read_ipv4_config("u1", rs),
        vec![
            (get("ipv4.method", "u1"), ok("manual")),
            (get("ipv4.addresses", "u1"), ok("192.168.1.50/24")),
            (get("ipv4.gateway", "u1"), ok("192.168.1.1")),
            (get("ipv4.dns", "u1"), ok("1.1.1.1,8.8.8.8")),
            (get("802-11-wireless.mtu", "u1"), fail("Error: invalid field")),
            (get("ethernet.mtu", "u1"), ok("1500")),
            (get("connection.autoconnect", "u1"), ok("no")),
        ],
    );
    let c = r.ok().unwrap();
    assert_eq!(c.method, "manual");
    assert_eq!(c.addresses, "192.168.1.50/24");
    assert_eq!(c.gateway, "192.168.1.1");
    assert_eq!(c.dns, "1.1.1.1 8.8.8.8");
    assert_eq!(c.mtu, Some(1500));
    assert!(!c.autoconnect);
}

#[test]
fn ipv4_settings_use_the_wireless_mtu_when_it_is_a_number() {
    let r = drive(
        |rs| read_ipv4_config("u2", rs),
        vec![
            (get("ipv4.method", "u2"), ok("auto")),
            (get("ipv4.addresses", "u2"), fail("x")),
            (get("ipv4.gateway", "u2"), fail("x")),
            (get("ipv4.dns", "u2"), fail("x")),
            (get("802-11-wireless.mtu", "u2"), ok("1400")),
            (get("connection.autoconnect", "u2"), fail("x")),
        ],
    );
    let c = r.ok().unwrap();
    assert_eq!(c.method, "auto");
    assert_eq!(c.addresses, "");
    assert_eq!(c.dns, "");
    assert_eq!(c.mtu, Some(1400));
    assert!(c.autoconnect);
}

#[test]
fn ipv4_settings_have_no_mtu_when_neither_is_a_number() {
    let r = drive(
        |rs| read_ipv4_config("u3", rs),
        vec![
            (get("ipv4.method", "u3"), ok("auto")),
            (get("ipv4.addresses", "u3"), ok("")),
            (get("ipv4.gateway", "u3"), ok("")),
            (get("ipv4.dns", "u3"), ok("")),
            (get("802-11-wireless.mtu", "u3"), ok("auto")),
            (get("ethernet.mtu", "u3"), ok("-1")),
            (get("connection.autoconnect", "u3"), ok("yes")),
        ],
    );
    let c = r.ok().unwrap();
    assert_eq!(c.mtu, None);
    assert!(c.autoconnect);
}

#[test]
fn ipv4_settings_fail_without_a_method() {
    let r = drive(|rs| read_ipv4_config("u4", rs), vec![(get("ipv4.method", "u4"), fail("Error: unknown connection 'u4'."))]);
    assert!(r.is_err());
}

fn config(method: &str, addresses: &str, gateway: &str, dns: &str, mtu: Option<u32>, autoconnect: bool) -> IpConfig {
    IpConfig {
        method: method.to_string(),
        addresses: addresses.to_string(),
        gateway: gateway.to_string(),
        dns: dns.to_string(),
        mtu,
        autoconnect,
    }
}

#[test]
fn static_settings_are_written_with_the_wireless_mtu() {
    let c = config("manual", "192.168.1.50/24", "", "1.1.1.1 8.8.8.8", Some(1400), true);
    let r = drive(
        |rs| write_ipv4_config("u1", &c, rs),
        vec![
            (get("connection.type", "u1"), ok("802-11-wireless")),
            (
                vec![
                    "connection", "modify", "u1", "ipv4.method", "manual", "ipv4.addresses",
                    "192.168.1.50/24", "ipv4.dns", "1.1.1.1,8.8.8.8", "connection.autoconnect", "yes",
                    "802-11-wireless.mtu", "1400",
                ],
                ok(""),
            ),
        ],
    );
    assert!(r.is_ok());
}

#[test]
fn automatic_settings_clear_the_static_fields() {
    let c = config("dhcp", "10.0.0.2/8", "10.0.0.1", "9.9.9.9", None, false);
    let r = drive(
        |rs| write_ipv4_config("u2", &c, rs),
        vec![(
            vec![
                "connection", "modify", "u2", "ipv4.method", "auto", "ipv4.addresses", "", "ipv4.gateway",
                "", "ipv4.dns", "", "connection.autoconnect", "no",
            ],
            ok(""),
        )],
    );
    assert!(r.is_ok());
}

#[test]
fn an_ethernet_profile_gets_the_ethernet_mtu() {
    let c = config("manual", "", "192.168.1.1", "", Some(9000), true);
    let r = drive(
        |rs| write_ipv4_config("u3", &c, rs),
        vec![
            (get("connection.type", "u3"), ok("802-3-ethernet")),
            (
                vec![
                    "connection", "modify", "u3", "ipv4.method", "manual", "ipv4.gateway", "192.168.1.1",
                    "connection.autoconnect", "yes", "ethernet.mtu", "9000",
                ],
                ok(""),
            ),
        ],
    );
    assert!(r.is_ok());
}

#[test]
fn a_failed_type_query_stops_the_write() {
    let c = config("manual", "", "", "", Some(1500), true);
    let r = drive(|rs| write_ipv4_config("u4", &c, rs), vec![(get("connection.type", "u4"), fail("gone"))]);
    match r {
        Err(NmError::Message(m)) => assert_eq!(m, "gone"),
        _ => panic!("expected the error of the type query"),
    }
}

#[test]
fn snapshot_reports_the_first_connected_device() {
    let r = drive(
        |rs| snapshot(true, false, rs),
        vec![
            (vec!["radio", "wifi"], ok("enabled\n")),
            (device_table(), ok("eth0:ethernet:unavailable:\nwlan0:wifi:connected:Home")),
            (ip4_of("eth0"), ok("")),
            (ip4_of("wlan0"), ok("192.168.1.5/24")),
            (connection_table(), ok("Home:uuid-1:802-11-wireless:wlan0")),
            (active_names(), ok("Home")),
            (ssid_of("uuid-1"), ok("HomeNet")),
            (vec!["-g", "IP4.GATEWAY", "device", "show", "wlan0"], ok("192.168.1.1")),
            (wifi_list(), ok("HomeNet:70:WPA2:*:AA")),
        ],
    );
    let s = r.ok().unwrap();
    assert!(s.wifi_enabled);
    assert!(s.connected);
    assert_eq!(s.connection_name, "Home");
    assert_eq!(s.ip4, "192.168.1.5/24");
    assert_eq!(s.gateway, "192.168.1.1");
    assert_eq!(s.device, "wlan0");
    assert_eq!(s.connection_type, "wifi");
    assert_eq!(s.devices.len(), 2);
    assert_eq!(s.connections.len(), 1);
    assert_eq!(s.wifi_networks.len(), 1);
    assert!(s.wifi_networks[0].saved);
}

#[test]
fn snapshot_does_not_count_a_disconnected_device() {
    let r = drive(
        |rs| snapshot(false, false, rs),
        vec![
            (vec!["radio", "wifi"], ok("disabled")),
            (device_table(), ok("eth0:ethernet:disconnected:\nwlan0:wifi:connecting (configuring):Home")),
            (ip4_of("eth0"), ok("")),
            (ip4_of("wlan0"), ok("")),
            (connection_table(), ok("")),
            (active_names(), ok("")),
        ],
    );
    let s = r.ok().unwrap();
    assert!(!s.wifi_enabled);
    assert!(!s.connected);
    assert_eq!(s.device, "");
    assert_eq!(s.connection_name, "");
    assert_eq!(s.gateway, "");
    assert_eq!(s.devices.len(), 2);
    assert!(s.wifi_networks.is_empty());
}

#[test]
fn snapshot_counts_an_externally_connected_device() {
    let r = drive(
        |rs| snapshot(false, false, rs),
        vec![
            (vec!["radio", "wifi"], ok("enabled")),
            (device_table(), ok("eth0:ethernet:disconnected:\ntun0:tun:connected (externally):tun0")),
            (ip4_of("eth0"), ok("")),
            (ip4_of("tun0"), ok("10.8.0.2/24")),
            (connection_table(), ok("")),
            (active_names(), ok("")),
            (vec!["-g", "IP4.GATEWAY", "device", "show", "tun0"], fail("x")),
        ],
    );
    let s = r.ok().unwrap();
    assert!(s.connected);
    assert_eq!(s.device, "tun0");
    assert_eq!(s.connection_name, "tun0");
    assert_eq!(s.ip4, "10.8.0.2/24");
    assert_eq!(s.gateway, "");
}

#[test]
fn snapshot_with_wifi_off_lists_no_networks() {
    let r = drive(
        |rs| snapshot(true, true, rs),
        vec![
            (vec!["radio", "wifi"], ok("disabled")),
            (device_table(), ok("lo:loopback:connected (externally):lo")),
            (connection_table(), ok("")),
            (active_names(), ok("")),
        ],
    );
    let s = r.ok().unwrap();
    assert!(!s.wifi_enabled);
    assert!(!s.connected);
    assert_eq!(s.connection_name, "");
    assert!(s.devices.is_empty());
    assert!(s.wifi_networks.is_empty());
}

#[test]
fn snapshot_fails_when_the_radio_cannot_be_read() {
    let r = drive(
        |rs| snapshot(true, false, rs),
        vec![(vec!["radio", "wifi"], Reply::SpawnFailed("No such file or directory (os error 2)".to_string()))],
    );
    match r {
        Err(e) => assert_eq!(e.message(), "Failed to run nmcli: No such file or directory (os error 2)"),
        Ok(_) => panic!("expected the spawn failure"),
    }
}

#[test]
fn a_silent_failure_reports_the_output() {
    let r = drive(
        |rs| activate_connection("u", rs),
        vec![(
            vec!["connection", "up", "u"],
            Reply::Exited { success: false, stdout: "  half done \n".to_string(), stderr: " \n".to_string() },
        )],
    );
    match r {
        Err(NmError::Message(m)) => assert_eq!(m, "nmcli failed: half done"),
        _ => panic!("expected the output in the message"),
    }
}

#[test]
fn error_messages_read_as_text() {
    assert_eq!(NmError::Message("boom".to_string()).message(), "boom");
    assert_eq!(NmError::AuthRequired.message(), "Authentication required");
    assert_eq!(NmError::NotFound.message(), "Not found");
}

#[test]
fn saving_writes_then_brings_the_profile_up() {
    let service = NetworkService::new();
    let c = config("auto", "", "", "", None, true);
    let r = drive(
        |rs| service.save_ip_config("u9", &c, rs),
        vec![
            (
                vec![
                    "connection", "modify", "u9", "ipv4.method", "auto", "ipv4.addresses", "", "ipv4.gateway",
                    "", "ipv4.dns", "", "connection.autoconnect", "yes",
                ],
                ok(""),
            ),
            (vec!["connection", "up", "u9"], ok("")),
        ],
    );
    assert!(r.is_ok());
}

#[test]
fn saving_stops_when_the_write_fails() {
    let service = NetworkService::new();
    let c = config("auto", "", "", "", None, false);
    let r = drive(
        |rs| service.save_ip_config("u9", &c, rs),
        vec![(
            vec![
                "connection", "modify", "u9", "ipv4.method", "auto", "ipv4.addresses", "", "ipv4.gateway", "",
                "ipv4.dns", "", "connection.autoconnect", "no",
            ],
            fail("Error: permission denied"),
        )],
    );
    assert!(r.is_err());
}

#[test]
fn the_service_forwards_each_request() {
    let service = NetworkService::new();
    assert!(drive(|rs| service.set_wifi_enabled(false, rs), vec![(vec!["radio", "wifi", "off"], ok(""))]).is_ok());
    assert!(drive(|rs| service.activate_connection("a", rs), vec![(vec!["connection", "up", "a"], ok(""))]).is_ok());
    assert!(drive(|rs| service.deactivate_connection("a", rs), vec![(vec!["connection", "down", "a"], ok(""))]).is_ok());
    assert!(drive(
        |rs| service.connect_wifi("X", Some("pw"), rs),
        vec![(vec!["device", "wifi", "connect", "X", "password", "pw"], ok(""))]
    )
    .is_ok());
}
