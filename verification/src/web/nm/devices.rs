//! Devices, the connection state, profiles, and the hotspot.
use vstd::prelude::*;
use crate::text::{
    chars_of, contains, find_row_with, first_row_with, lemma_first_row_with_bounds, lines, lines_of,
    lit, piece, piece_of, rows_of, rows_of_lines, seqs, split_rows, string_of, trim, trim_chars,
    eq_str, has_line, rows_without, split, split_chars, split_pat, split_pat_chars, contains_str, starts_with_str,
};
use crate::nm::types::{DeviceView};
use crate::nm::reply::{outcome, Reply, Step, StepView, strs};
use crate::nm::cli::{
    connection_rows, connection_table_args, active_names_args, delete_args, device_ip4_args,
    device_rows, device_table_args, devices_from, disconnect_args, down_args, first_active_from,
    radio_args, radio_set_args, rescan_args, up_args, args_connection_table, args_active_names,
    push_lit,
};
use crate::web::nm::types::{
    HotspotStatus, HotspotView, NetworkDevice, NetworkStatus, SavedConnection, SavedView,
    StatusView,
};
use crate::web::nm::run::{
    lemma_same_output, output_at, output_steps, text_or_empty, text_or_empty_of, text_outcome,
    text_outcome_of, unit_at, unit_steps,
};

verus! {

// ---------------------------------------------------------------------------
// Devices
// ---------------------------------------------------------------------------

/// The device of a table row, with the first address line of its IPv4 query.
pub open spec fn network_device_of(row: Seq<Seq<char>>, ip4_reply: Reply) -> DeviceView {
    DeviceView {
        name: piece(row, 0),
        device_type: piece(row, 1),
        state: piece(row, 2),
        connection: piece(row, 3),
        ip4: piece(lines(text_or_empty(ip4_reply)), 0),
    }
}

/// Listing the devices from reply `at` on: the device table (its query must
/// succeed), loopback left out, then one IPv4 query per device.
pub open spec fn network_devices_at(rs: Seq<Reply>, at: int) -> (StepView<Seq<DeviceView>, Seq<char>>, int) {
    if at >= rs.len() {
        (StepView::Run(device_table_args()), at)
    } else {
        match text_outcome(rs[at]) {
            Err(e) => (StepView::Done(Err(e)), at + 1),
            Ok(out) => {
                let rows = device_rows(out);
                let have = rs.len() - (at + 1);
                if have < rows.len() {
                    (StepView::Run(device_ip4_args(piece(rows[have], 0))), rs.len() as int)
                } else {
                    (
                        StepView::Done(
                            Ok(Seq::new(rows.len(), |i: int| network_device_of(rows[i], rs[at + 1 + i]))),
                        ),
                        at + 1 + rows.len(),
                    )
                }
            },
        }
    }
}

fn network_devices_from(rs: &[Reply], at: usize) -> (r: (Step<Vec<NetworkDevice>, String>, usize))
    ensures
        r.0.deep_view() == network_devices_at(rs@, at as int).0,
        r.1 == network_devices_at(rs@, at as int).1,
{
    proof {
        if at < rs@.len() {
            lemma_same_output(rs@[at as int]);
            assert forall|r: Reply| #[trigger] text_or_empty(r) == crate::nm::reply::output_or_empty(r) by {
                lemma_same_output(r);
            }
        }
    }
    let (d, k) = devices_from(rs, at);
    match d {
        Step::Run(a) => (Step::Run(a), k),
        Step::Done(Err(_)) => {
            let e = match text_outcome_of(&rs[at]) {
                Err(e) => e,
                Ok(_) => String::new(),
            };
            (Step::Done(Err(e)), k)
        },
        Step::Done(Ok(devs)) => {
            let mut out: Vec<NetworkDevice> = Vec::new();
            let mut i: usize = 0;
            while i < devs.len()
                invariant
                    i <= devs@.len(),
                    out.deep_view() == devs.deep_view().take(i as int),
                decreases devs@.len() - i,
            {
                let d = &devs[i];
                let n = NetworkDevice {
                    name: d.name.clone(),
                    device_type: d.device_type.clone(),
                    state: d.state.clone(),
                    connection: d.connection.clone(),
                    ip4: d.ip4.clone(),
                };
                let ghost before = out.deep_view();
                out.push(n);
                i += 1;
                assert(out.deep_view() =~= before.push(n.deep_view()));
                assert(devs.deep_view()[i - 1] == d.deep_view());
                assert(out.deep_view() =~= devs.deep_view().take(i as int));
            }
            proof {
                assert(devs.deep_view().take(devs@.len() as int) =~= devs.deep_view());
                let rows = device_rows(outcome(rs@[at as int])->Ok_0);
                assert(out.deep_view() =~= Seq::new(rows.len(), |i: int| network_device_of(rows[i], rs@[at + 1 + i])));
            }
            (Step::Done(Ok(out)), k)
        },
    }
}

/// The devices, loopback left out, each with the first line of its IPv4
/// addresses (empty where that query fails).
pub fn get_devices(replies: &[Reply]) -> (step: Step<Vec<NetworkDevice>, String>)
    ensures
        step.deep_view() == network_devices_at(replies@, 0).0,
{
    network_devices_from(replies, 0).0
}

// ---------------------------------------------------------------------------
// The WiFi device
// ---------------------------------------------------------------------------

/// `nmcli -t -f DEVICE,TYPE,STATE device status`
pub open spec fn device_status_args() -> Seq<Seq<char>> {
    seq!["-t"@, "-f"@, "DEVICE,TYPE,STATE"@, "device"@, "status"@]
}

/// The name of the first device of type `wifi` in the status table.
pub open spec fn wifi_name_in(out: Seq<char>) -> Option<Seq<char>> {
    let rows = split_rows(lines(out), 3);
    match first_row_with(rows, 1, "wifi"@, 0) {
        Some(i) => Some(piece(rows[i], 0)),
        None => None,
    }
}

/// Finding the WiFi device from reply `at` on.
pub open spec fn wifi_device_name_at(rs: Seq<Reply>, at: int) -> (StepView<Seq<char>, Seq<char>>, int) {
    if at >= rs.len() {
        (StepView::Run(device_status_args()), at)
    } else {
        match text_outcome(rs[at]) {
            Err(e) => (StepView::Done(Err(e)), at + 1),
            Ok(out) => match wifi_name_in(out) {
                Some(n) => (StepView::Done(Ok(n)), at + 1),
                None => (StepView::Done(Err("No WiFi device found"@)), at + 1),
            },
        }
    }
}

fn wifi_device_name_from(rs: &[Reply], at: usize) -> (r: (Step<String, String>, usize))
    ensures
        r.0.deep_view() == wifi_device_name_at(rs@, at as int).0,
        r.1 == wifi_device_name_at(rs@, at as int).1,
{
    if at >= rs.len() {
        let v = vec![lit("-t"), lit("-f"), lit("DEVICE,TYPE,STATE"), lit("device"), lit("status")];
        assert(strs(v@) =~= device_status_args());
        return (Step::Run(v), at);
    }
    match text_outcome_of(&rs[at]) {
        Err(e) => (Step::Done(Err(e)), at + 1),
        Ok(out) => {
            let ls = lines_of(out.as_slice());
            let rows = rows_of_lines(&ls, 3);
            match find_row_with(&rows, 1, "wifi") {
                Some(i) => {
                    proof {
                        lemma_first_row_with_bounds(rows_of(rows@), 1, "wifi"@, 0);
                    }
                    let name = piece_of(&rows[i], 0);
                    (Step::Done(Ok(string_of(name.as_slice()))), at + 1)
                },
                None => (Step::Done(Err(lit("No WiFi device found"))), at + 1),
            }
        },
    }
}

/// The name of the first WiFi device.
pub fn wifi_device_name(replies: &[Reply]) -> (step: Step<String, String>)
    ensures
        step.deep_view() == wifi_device_name_at(replies@, 0).0,
{
    wifi_device_name_from(replies, 0).0
}

/// Disconnecting the WiFi device; any failure to find it reads "No WiFi
/// device found".
pub open spec fn disconnect_wifi_at(rs: Seq<Reply>) -> StepView<(), Seq<char>> {
    let (d, k) = wifi_device_name_at(rs, 0);
    match d {
        StepView::Run(a) => StepView::Run(a),
        StepView::Done(Err(_)) => StepView::Done(Err("No WiFi device found"@)),
        StepView::Done(Ok(name)) => unit_at(disconnect_args(name), rs, k).0,
    }
}

/// Disconnects the WiFi device.
pub fn disconnect_wifi(replies: &[Reply]) -> (step: Step<(), String>)
    ensures
        step.deep_view() == disconnect_wifi_at(replies@),
{
    let (d, k) = wifi_device_name_from(replies, 0);
    match d {
        Step::Run(a) => Step::Run(a),
        Step::Done(Err(_)) => Step::Done(Err(lit("No WiFi device found"))),
        Step::Done(Ok(name)) => {
            let v = vec![lit("device"), lit("disconnect"), name];
            assert(strs(v@) =~= disconnect_args(v@[2]@));
            unit_steps(v, replies, k).0
        },
    }
}

// ---------------------------------------------------------------------------
// Requests of one command
// ---------------------------------------------------------------------------

/// Asks NetworkManager to rescan for WiFi networks.
pub fn rescan_wifi(replies: &[Reply]) -> (step: Step<(), String>)
    ensures
        step.deep_view() == unit_at(rescan_args(), replies@, 0).0,
{
    let v = vec![lit("device"), lit("wifi"), lit("rescan")];
    assert(strs(v@) =~= rescan_args());
    unit_steps(v, replies, 0).0
}

/// Switches the WiFi radio on or off.
pub fn set_wifi_enabled(enabled: bool, replies: &[Reply]) -> (step: Step<(), String>)
    ensures
        step.deep_view() == unit_at(radio_set_args(enabled), replies@, 0).0,
{
    let state = if enabled {
        lit("on")
    } else {
        lit("off")
    };
    let v = vec![lit("radio"), lit("wifi"), state];
    assert(strs(v@) =~= radio_set_args(enabled));
    unit_steps(v, replies, 0).0
}

/// Deletes the profile whose name or UUID is `ssid`.
pub fn forget_wifi(ssid: &str, replies: &[Reply]) -> (step: Step<(), String>)
    ensures
        step.deep_view() == unit_at(delete_args(ssid@), replies@, 0).0,
{
    let v = vec![lit("connection"), lit("delete"), lit(ssid)];
    assert(strs(v@) =~= delete_args(ssid@));
    unit_steps(v, replies, 0).0
}

/// Brings the profile `uuid` up.
pub fn activate_connection(uuid: &str, replies: &[Reply]) -> (step: Step<(), String>)
    ensures
        step.deep_view() == unit_at(up_args(uuid@), replies@, 0).0,
{
    let v = vec![lit("connection"), lit("up"), lit(uuid)];
    assert(strs(v@) =~= up_args(uuid@));
    unit_steps(v, replies, 0).0
}

/// Takes the profile `uuid` down.
pub fn deactivate_connection(uuid: &str, replies: &[Reply]) -> (step: Step<(), String>)
    ensures
        step.deep_view() == unit_at(down_args(uuid@), replies@, 0).0,
{
    let v = vec![lit("connection"), lit("down"), lit(uuid)];
    assert(strs(v@) =~= down_args(uuid@));
    unit_steps(v, replies, 0).0
}

// ---------------------------------------------------------------------------
// The connection state
// ---------------------------------------------------------------------------

/// `nmcli -g IP4.ADDRESS,IP4.GATEWAY device show <device>`
pub open spec fn address_gateway_args(device: Seq<char>) -> Seq<Seq<char>> {
    seq!["-g"@, "IP4.ADDRESS,IP4.GATEWAY"@, "device"@, "show"@, device]
}

/// Reading the radio state at reply `at`: on when `nmcli radio wifi` prints
/// `enabled`.
pub open spec fn radio_on_at(rs: Seq<Reply>, at: int) -> StepView<bool, Seq<char>> {
    if at >= rs.len() {
        StepView::Run(radio_args())
    } else {
        match text_outcome(rs[at]) {
            Err(e) => StepView::Done(Err(e)),
            Ok(out) => StepView::Done(Ok(trim(out) == "enabled"@)),
        }
    }
}

fn radio_on_from(rs: &[Reply], at: usize) -> (r: Step<bool, String>)
    ensures
        r.deep_view() == radio_on_at(rs@, at as int),
{
    if at >= rs.len() {
        let v = vec![lit("radio"), lit("wifi")];
        assert(strs(v@) =~= radio_args());
        return Step::Run(v);
    }
    match text_outcome_of(&rs[at]) {
        Err(e) => Step::Done(Err(e)),
        Ok(out) => {
            let t = trim_chars(out.as_slice());
            Step::Done(Ok(eq_str(t.as_slice(), "enabled")))
        },
    }
}

/// The connection state: the devices; where one carries the connection (its
/// state begins with `connected`), its addresses (that query must succeed) and
/// the name of its connection; then the radio state.
pub open spec fn status_at(rs: Seq<Reply>) -> StepView<StatusView, Seq<char>> {
    let (d, k) = network_devices_at(rs, 0);
    match d {
        StepView::Run(a) => StepView::Run(a),
        StepView::Done(Err(e)) => StepView::Done(Err(e)),
        StepView::Done(Ok(devs)) => match first_active_from(devs, 0) {
            None => match radio_on_at(rs, k) {
                StepView::Run(a) => StepView::Run(a),
                StepView::Done(Err(e)) => StepView::Done(Err(e)),
                StepView::Done(Ok(on)) => StepView::Done(
                    Ok(
                        StatusView {
                            wifi_enabled: on,
                            connected: false,
                            ssid: Seq::<char>::empty(),
                            ip4: Seq::<char>::empty(),
                            gateway: Seq::<char>::empty(),
                            device: Seq::<char>::empty(),
                            connection_type: Seq::<char>::empty(),
                        },
                    ),
                ),
            },
            Some(i) => match output_at(address_gateway_args(devs[i].name), rs, k) {
                (StepView::Run(a), _) => StepView::Run(a),
                (StepView::Done(Err(e)), _) => StepView::Done(Err(e)),
                (StepView::Done(Ok(detail)), k2) => match radio_on_at(rs, k2) {
                    StepView::Run(a) => StepView::Run(a),
                    StepView::Done(Err(e)) => StepView::Done(Err(e)),
                    StepView::Done(Ok(on)) => StepView::Done(
                        Ok(
                            StatusView {
                                wifi_enabled: on,
                                connected: true,
                                ssid: devs[i].connection,
                                ip4: piece(lines(detail), 0),
                                gateway: piece(lines(detail), 1),
                                device: devs[i].name,
                                connection_type: devs[i].device_type,
                            },
                        ),
                    ),
                },
            },
        },
    }
}

fn find_active_device(devs: &Vec<NetworkDevice>) -> (r: Option<usize>)
    ensures
        match r {
            Some(k) => first_active_from(devs.deep_view(), 0) == Some(k as int) && k < devs@.len(),
            None => first_active_from(devs.deep_view(), 0) is None,
        },
{
    let ghost dv = devs.deep_view();
    let mut i: usize = 0;
    while i < devs.len()
        invariant
            dv == devs.deep_view(),
            i <= devs@.len(),
            first_active_from(dv, 0) == first_active_from(dv, i as int),
        decreases devs@.len() - i,
    {
        let st = chars_of(devs[i].state.as_str());
        let ty = chars_of(devs[i].device_type.as_str());
        assert(dv[i as int] == devs@[i as int].deep_view());
        if starts_with_str(st.as_slice(), "connected") && !eq_str(ty.as_slice(), "loopback") {
            return Some(i);
        }
        i += 1;
    }
    None
}

/// The connection state.
pub fn get_status(replies: &[Reply]) -> (step: Step<NetworkStatus, String>)
    ensures
        step.deep_view() == status_at(replies@),
{
    let (d, k) = network_devices_from(replies, 0);
    let devs = match d {
        Step::Run(a) => {
            return Step::Run(a);
        },
        Step::Done(Err(e)) => {
            return Step::Done(Err(e));
        },
        Step::Done(Ok(devs)) => devs,
    };
    match find_active_device(&devs) {
        None => match radio_on_from(replies, k) {
            Step::Run(a) => Step::Run(a),
            Step::Done(Err(e)) => Step::Done(Err(e)),
            Step::Done(Ok(on)) => Step::Done(
                Ok(
                    NetworkStatus {
                        wifi_enabled: on,
                        connected: false,
                        ssid: String::new(),
                        ip4: String::new(),
                        gateway: String::new(),
                        device: String::new(),
                        connection_type: String::new(),
                    },
                ),
            ),
        },
        Some(i) => {
            assert(devs.deep_view()[i as int] == devs@[i as int].deep_view());
            let dev = &devs[i];
            let v = vec![lit("-g"), lit("IP4.ADDRESS,IP4.GATEWAY"), lit("device"), lit("show"), dev.name.clone()];
            assert(strs(v@) =~= address_gateway_args(dev.name@));
            let (o, k2) = output_steps(v, replies, k);
            match o {
                Step::Run(a) => Step::Run(a),
                Step::Done(Err(e)) => Step::Done(Err(e)),
                Step::Done(Ok(detail)) => {
                    match radio_on_from(replies, k2) {
                        Step::Run(a) => Step::Run(a),
                        Step::Done(Err(e)) => Step::Done(Err(e)),
                        Step::Done(Ok(on)) => {
                            let dc = chars_of(detail.as_str());
                            let dl = lines_of(dc.as_slice());
                            let ip4 = piece_of(&dl, 0);
                            let gateway = piece_of(&dl, 1);
                            Step::Done(
                                Ok(
                                    NetworkStatus {
                                        wifi_enabled: on,
                                        connected: true,
                                        ssid: dev.connection.clone(),
                                        ip4: string_of(ip4.as_slice()),
                                        gateway: string_of(gateway.as_slice()),
                                        device: dev.name.clone(),
                                        connection_type: dev.device_type.clone(),
                                    },
                                ),
                            )
                        },
                    }
                },
            }
        },
    }
}

// ---------------------------------------------------------------------------
// Profiles
// ---------------------------------------------------------------------------

/// The profile of a table row; active when its name is a line of `active_out`.
pub open spec fn saved_of(row: Seq<Seq<char>>, active_out: Seq<char>) -> SavedView {
    SavedView {
        name: piece(row, 0),
        uuid: piece(row, 1),
        connection_type: piece(row, 2),
        device: piece(row, 3),
        active: lines(active_out).contains(piece(row, 0)),
    }
}

/// Listing the profiles: the profile table (its query must succeed),
/// loopback left out, then the names of the active profiles (taken as empty
/// where that query fails).
pub open spec fn saved_connections_at(rs: Seq<Reply>) -> StepView<Seq<SavedView>, Seq<char>> {
    if rs.len() == 0 {
        StepView::Run(connection_table_args())
    } else {
        match text_outcome(rs[0]) {
            Err(e) => StepView::Done(Err(e)),
            Ok(out) => if rs.len() == 1 {
                StepView::Run(active_names_args())
            } else {
                let rows = connection_rows(out);
                StepView::Done(Ok(Seq::new(rows.len(), |i: int| saved_of(rows[i], text_or_empty(rs[1])))))
            },
        }
    }
}

/// The saved connection profiles.
pub fn get_connections(replies: &[Reply]) -> (step: Step<Vec<SavedConnection>, String>)
    ensures
        step.deep_view() == saved_connections_at(replies@),
{
    if replies.len() == 0 {
        return Step::Run(args_connection_table());
    }
    let out = match text_outcome_of(&replies[0]) {
        Err(e) => {
            return Step::Done(Err(e));
        },
        Ok(out) => out,
    };
    if replies.len() == 1 {
        return Step::Run(args_active_names());
    }
    let active = text_or_empty_of(&replies[1]);
    let active_lines = lines_of(active.as_slice());
    let ls = lines_of(out.as_slice());
    let rows = rows_without(&ls, 4, 2, "loopback");
    let ghost rv = rows_of(rows@);
    let mut conns: Vec<SavedConnection> = Vec::new();
    let mut j: usize = 0;
    while j < rows.len()
        invariant
            rv == rows_of(rows@),
            seqs(active_lines@) == lines(active@),
            j <= rows@.len(),
            conns@.len() == j,
            forall|k: int| 0 <= k < j ==> #[trigger] conns@[k].deep_view() == saved_of(rv[k], active@),
        decreases rows@.len() - j,
    {
        let row = &rows[j];
        assert(seqs(row@) == rv[j as int]);
        let name = piece_of(row, 0);
        let uuid = piece_of(row, 1);
        let ty = piece_of(row, 2);
        let device = piece_of(row, 3);
        let is_active = has_line(&active_lines, name.as_slice());
        let c = SavedConnection {
            name: string_of(name.as_slice()),
            uuid: string_of(uuid.as_slice()),
            connection_type: string_of(ty.as_slice()),
            device: string_of(device.as_slice()),
            active: is_active,
        };
        let ghost before = conns@;
        conns.push(c);
        j += 1;
        proof {
            assert forall|k: int| 0 <= k < j implies #[trigger] conns@[k].deep_view() == saved_of(rv[k], active@) by {
                if k < before.len() {
                    assert(conns@[k] == before[k]);
                }
            }
        }
    }
    proof {
        assert(conns.deep_view() =~= Seq::new(rv.len(), |i: int| saved_of(rv[i], text_or_empty(replies@[1]))));
    }
    Step::Done(Ok(conns))
}

/// A VPN profile.
pub open spec fn vpn_profile() -> spec_fn(SavedView) -> bool {
    |c: SavedView| c.connection_type == "vpn"@
}

/// Listing the VPN profiles: the profiles whose type is `vpn`.
pub open spec fn vpn_connections_at(rs: Seq<Reply>) -> StepView<Seq<SavedView>, Seq<char>> {
    match saved_connections_at(rs) {
        StepView::Done(Ok(cs)) => StepView::Done(Ok(cs.filter(vpn_profile()))),
        other => other,
    }
}

/// The VPN profiles.
pub fn get_vpn_connections(replies: &[Reply]) -> (step: Step<Vec<SavedConnection>, String>)
    ensures
        step.deep_view() == vpn_connections_at(replies@),
{
    match get_connections(replies) {
        Step::Done(Ok(cs)) => {
            let ghost cv = cs.deep_view();
            let mut out: Vec<SavedConnection> = Vec::new();
            let mut i: usize = 0;
            while i < cs.len()
                invariant
                    cv == cs.deep_view(),
                    i <= cs@.len(),
                    out.deep_view() == cv.take(i as int).filter(vpn_profile()),
                decreases cs@.len() - i,
            {
                proof {
                    crate::text::lemma_filter_take_next(cv, vpn_profile(), i as int);
                }
                let t = chars_of(cs[i].connection_type.as_str());
                assert(cv[i as int] == cs@[i as int].deep_view());
                if eq_str(t.as_slice(), "vpn") {
                    let c = &cs[i];
                    let copy = SavedConnection {
                        name: c.name.clone(),
                        uuid: c.uuid.clone(),
                        connection_type: c.connection_type.clone(),
                        device: c.device.clone(),
                        active: c.active,
                    };
                    let ghost before = out.deep_view();
                    out.push(copy);
                    assert(out.deep_view() =~= before.push(copy.deep_view()));
                }
                i += 1;
            }
            assert(cv.take(cv.len() as int) =~= cv);
            Step::Done(Ok(out))
        },
        other => other,
    }
}

// ---------------------------------------------------------------------------
// The hotspot
// ---------------------------------------------------------------------------

/// `nmcli device wifi hotspot ifname <device> ssid <ssid> [password <password>]`
pub open spec fn hotspot_args(device: Seq<char>, ssid: Seq<char>, password: Seq<char>) -> Seq<Seq<char>> {
    let base = seq!["device"@, "wifi"@, "hotspot"@, "ifname"@, device, "ssid"@, ssid];
    if password.len() == 0 {
        base
    } else {
        base + seq!["password"@, password]
    }
}

/// Starting a hotspot on the WiFi device, with a password where one is
/// given; the result is what `nmcli` prints.
pub open spec fn create_hotspot_at(ssid: Seq<char>, password: Seq<char>, rs: Seq<Reply>) -> StepView<Seq<char>, Seq<char>> {
    let (d, k) = wifi_device_name_at(rs, 0);
    match d {
        StepView::Run(a) => StepView::Run(a),
        StepView::Done(Err(e)) => StepView::Done(Err(e)),
        StepView::Done(Ok(dev)) => output_at(hotspot_args(dev, ssid, password), rs, k).0,
    }
}

/// Starts a hotspot.
pub fn create_hotspot(ssid: &str, password: &str, replies: &[Reply]) -> (step: Step<String, String>)
    ensures
        step.deep_view() == create_hotspot_at(ssid@, password@, replies@),
{
    let (d, k) = wifi_device_name_from(replies, 0);
    match d {
        Step::Run(a) => Step::Run(a),
        Step::Done(Err(e)) => Step::Done(Err(e)),
        Step::Done(Ok(dev)) => {
            let ghost dv = dev@;
            let mut v: Vec<String> = Vec::new();
            push_lit(&mut v, "device");
            push_lit(&mut v, "wifi");
            push_lit(&mut v, "hotspot");
            push_lit(&mut v, "ifname");
            let ghost before = strs(v@);
            v.push(dev);
            assert(strs(v@) =~= before.push(dv));
            assert(strs(v@) =~= seq!["device"@, "wifi"@, "hotspot"@, "ifname"@, dv]);
            push_lit(&mut v, "ssid");
            push_lit(&mut v, ssid);
            let pc = chars_of(password);
            if pc.len() > 0 {
                push_lit(&mut v, "password");
                push_lit(&mut v, password);
            }
            assert(strs(v@) =~= hotspot_args(dv, ssid@, password@));
            output_steps(v, replies, k).0
        },
    }
}

/// Stopping the hotspot: disconnecting the WiFi device.
pub open spec fn stop_hotspot_at(rs: Seq<Reply>) -> StepView<(), Seq<char>> {
    let (d, k) = wifi_device_name_at(rs, 0);
    match d {
        StepView::Run(a) => StepView::Run(a),
        StepView::Done(Err(e)) => StepView::Done(Err(e)),
        StepView::Done(Ok(dev)) => unit_at(disconnect_args(dev), rs, k).0,
    }
}

/// Stops the hotspot.
pub fn stop_hotspot(replies: &[Reply]) -> (step: Step<(), String>)
    ensures
        step.deep_view() == stop_hotspot_at(replies@),
{
    let (d, k) = wifi_device_name_from(replies, 0);
    match d {
        Step::Run(a) => Step::Run(a),
        Step::Done(Err(e)) => Step::Done(Err(e)),
        Step::Done(Ok(dev)) => {
            let ghost dv = dev@;
            let v = vec![lit("device"), lit("disconnect"), dev];
            assert(strs(v@) =~= disconnect_args(dv));
            unit_steps(v, replies, k).0
        },
    }
}


/// `nmcli -t -f GENERAL.CONNECTION,GENERAL.TYPE device show`
pub open spec fn hotspot_query_args() -> Seq<Seq<char>> {
    seq!["-t"@, "-f"@, "GENERAL.CONNECTION,GENERAL.TYPE"@, "device"@, "show"@]
}

/// A block of the device listing that shows a hotspot.
pub open spec fn is_hotspot_block(b: Seq<char>) -> bool {
    contains(b, "wifi-p2p"@) || contains(b, "Hotspot"@)
}

/// The first block from index `i` on that shows a hotspot.
pub open spec fn first_hotspot_block(blocks: Seq<Seq<char>>, i: int) -> Option<int>
    decreases blocks.len() - i,
{
    if i < 0 || i >= blocks.len() {
        None
    } else if is_hotspot_block(blocks[i]) {
        Some(i)
    } else {
        first_hotspot_block(blocks, i + 1)
    }
}

/// The first line from index `i` on that contains `pat`.
pub open spec fn first_line_with(ls: Seq<Seq<char>>, pat: Seq<char>, i: int) -> Option<int>
    decreases ls.len() - i,
{
    if i < 0 || i >= ls.len() {
        None
    } else if contains(ls[i], pat) {
        Some(i)
    } else {
        first_line_with(ls, pat, i + 1)
    }
}

/// The name of the hotspot that a block shows: the second `:`-field of its
/// first line that names `GENERAL.CONNECTION`, or `Hotspot`; trimmed.
pub open spec fn hotspot_name(block: Seq<char>) -> Seq<char> {
    let ls = lines(block);
    trim(
        match first_line_with(ls, "GENERAL.CONNECTION"@, 0) {
            Some(j) => {
                let parts = split(ls[j], ':');
                if parts.len() > 1 {
                    parts[1]
                } else {
                    "Hotspot"@
                }
            },
            None => "Hotspot"@,
        },
    )
}

/// The hotspot state: the device listing (its query must succeed), split
/// into blocks at blank lines; the first block that shows a hotspot gives its
/// name; then the WiFi device (empty where it cannot be found).
pub open spec fn hotspot_status_at(rs: Seq<Reply>) -> StepView<HotspotView, Seq<char>> {
    if rs.len() == 0 {
        StepView::Run(hotspot_query_args())
    } else {
        match text_outcome(rs[0]) {
            Err(e) => StepView::Done(Err(e)),
            Ok(out) => {
                let blocks = split_pat(out, "\n\n"@);
                let found = first_hotspot_block(blocks, 0);
                match wifi_device_name_at(rs, 1).0 {
                    StepView::Run(a) => StepView::Run(a),
                    StepView::Done(r) => StepView::Done(
                        Ok(
                            HotspotView {
                                active: found is Some,
                                ssid: match found {
                                    Some(i) => hotspot_name(blocks[i]),
                                    None => Seq::<char>::empty(),
                                },
                                device: match r {
                                    Ok(n) => n,
                                    Err(_) => Seq::<char>::empty(),
                                },
                            },
                        ),
                    ),
                }
            },
        }
    }
}

proof fn lemma_first_hotspot_bounds(blocks: Seq<Seq<char>>, i: int)
    ensures
        first_hotspot_block(blocks, i) matches Some(k) ==> 0 <= k < blocks.len(),
    decreases blocks.len() - i,
{
    if 0 <= i < blocks.len() {
        lemma_first_hotspot_bounds(blocks, i + 1);
    }
}

proof fn lemma_first_line_bounds(ls: Seq<Seq<char>>, pat: Seq<char>, i: int)
    ensures
        first_line_with(ls, pat, i) matches Some(k) ==> 0 <= k < ls.len(),
    decreases ls.len() - i,
{
    if 0 <= i < ls.len() {
        lemma_first_line_bounds(ls, pat, i + 1);
    }
}

fn hotspot_name_of(block: &Vec<char>) -> (name: Vec<char>)
    ensures
        name@ == hotspot_name(block@),
{
    let ls = lines_of(block.as_slice());
    let ghost lv = seqs(ls@);
    let mut found: Option<usize> = None;
    let mut i: usize = 0;
    while i < ls.len() && found.is_none()
        invariant
            lv == seqs(ls@),
            i <= ls@.len(),
            found matches Some(k) ==> k < ls@.len() && first_line_with(lv, "GENERAL.CONNECTION"@, 0) == Some(k as int),
            found is None ==> first_line_with(lv, "GENERAL.CONNECTION"@, 0) == first_line_with(lv, "GENERAL.CONNECTION"@, i as int),
        decreases ls@.len() - i,
    {
        if contains_str(ls[i].as_slice(), "GENERAL.CONNECTION") {
            found = Some(i);
        }
        i += 1;
    }
    let raw = match found {
        Some(j) => {
            let parts = split_chars(ls[j].as_slice(), ':');
            if parts.len() > 1 {
                crate::text::copy_chars(&parts[1])
            } else {
                chars_of("Hotspot")
            }
        },
        None => chars_of("Hotspot"),
    };
    trim_chars(raw.as_slice())
}

/// Whether this machine serves a hotspot, its name, and the WiFi device.
pub fn hotspot_status(replies: &[Reply]) -> (step: Step<HotspotStatus, String>)
    ensures
        step.deep_view() == hotspot_status_at(replies@),
{
    if replies.len() == 0 {
        let v = vec![lit("-t"), lit("-f"), lit("GENERAL.CONNECTION,GENERAL.TYPE"), lit("device"), lit("show")];
        assert(strs(v@) =~= hotspot_query_args());
        return Step::Run(v);
    }
    let out = match text_outcome_of(&replies[0]) {
        Err(e) => {
            return Step::Done(Err(e));
        },
        Ok(out) => out,
    };
    let sep = chars_of("\n\n");
    proof {
        reveal_strlit("\n\n");
    }
    let blocks = split_pat_chars(out.as_slice(), sep.as_slice());
    let ghost bv = seqs(blocks@);
    let mut found: Option<usize> = None;
    let mut i: usize = 0;
    while i < blocks.len() && found.is_none()
        invariant
            bv == seqs(blocks@),
            i <= blocks@.len(),
            found matches Some(k) ==> k < blocks@.len() && first_hotspot_block(bv, 0) == Some(k as int),
            found is None ==> first_hotspot_block(bv, 0) == first_hotspot_block(bv, i as int),
        decreases blocks@.len() - i,
    {
        if contains_str(blocks[i].as_slice(), "wifi-p2p") || contains_str(blocks[i].as_slice(), "Hotspot") {
            found = Some(i);
        }
        i += 1;
    }
    let ssid = match found {
        Some(j) => hotspot_name_of(&blocks[j]),
        None => Vec::new(),
    };
    let (d, _k) = wifi_device_name_from(replies, 1);
    match d {
        Step::Run(a) => Step::Run(a),
        Step::Done(r) => {
            let device = match r {
                Ok(n) => n,
                Err(_) => String::new(),
            };
            Step::Done(
                Ok(
                    HotspotStatus {
                        active: found.is_some(),
                        ssid: string_of(ssid.as_slice()),
                        device,
                    },
                ),
            )
        },
    }
}

} // verus!
