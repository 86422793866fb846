//! The `nmcli` conversations behind each request of the panel.
//!
//! Each request is a function of the replies received so far: it returns the
//! next command to run, or the request's result once it has every reply it
//! needs. The caller runs the commands and calls again with one more reply.
use vstd::prelude::*;
use crate::text::{
    chars_of, contains, contains_str, decimal, decimal_chars, eq_chars, eq_str, field_is_either,
    field_is_not, has_line, lemma_filter_take, lemma_filter_take_next, lines, lines_of, lit, lower,
    parse_u32_chars, parse_u8_chars, parse_unsigned, piece, piece_of, remove_char,
    remove_char_chars, replace_char, replace_char_chars, rows_of, rows_without, seqs, split_rows,
    splitn_chars, starts_with_str, string_of, trim, trim_chars,
};
use crate::nm::types::{
    ConnectionInfo, ConnectionView, DeviceInfo, DeviceView, IpConfig, IpConfigView, NetworkSnapshot,
    NmError, NmErrorView, SnapshotView, WifiNetwork, WifiView,
};
use crate::nm::reply::{
    Reply, Step, StepView, outcome, outcome_of, output_or_empty, output_or_empty_of, strs,
};

verus! {

// ---------------------------------------------------------------------------
// Devices
// ---------------------------------------------------------------------------

/// `nmcli -t -f DEVICE,TYPE,STATE,CONNECTION device`
pub open spec fn device_table_args() -> Seq<Seq<char>> {
    seq!["-t"@, "-f"@, "DEVICE,TYPE,STATE,CONNECTION"@, "device"@]
}

/// `nmcli -g IP4.ADDRESS device show <name>`
pub open spec fn device_ip4_args(name: Seq<char>) -> Seq<Seq<char>> {
    seq!["-g"@, "IP4.ADDRESS"@, "device"@, "show"@, name]
}

/// A row of the device table that is not the loopback device.
pub open spec fn not_loopback_row() -> spec_fn(Seq<Seq<char>>) -> bool {
    |p: Seq<Seq<char>>| piece(p, 1) != "loopback"@
}

/// The rows of the device table, loopback left out.
pub open spec fn device_rows(out: Seq<char>) -> Seq<Seq<Seq<char>>> {
    split_rows(lines(out), 4).filter(not_loopback_row())
}

/// The device of a table row, with the first address line of its IPv4 query.
pub open spec fn device_of(row: Seq<Seq<char>>, ip4_reply: Reply) -> DeviceView {
    DeviceView {
        name: piece(row, 0),
        device_type: piece(row, 1),
        state: piece(row, 2),
        connection: piece(row, 3),
        ip4: piece(lines(output_or_empty(ip4_reply)), 0),
    }
}

/// Listing the devices from reply `at` on: the next step, and where the
/// replies that the listing uses end.
pub open spec fn devices_at(rs: Seq<Reply>, at: int) -> (StepView<Seq<DeviceView>, NmErrorView>, int) {
    if at >= rs.len() {
        (StepView::Run(device_table_args()), at)
    } else {
        match outcome(rs[at]) {
            Err(e) => (StepView::Done(Err(e)), at + 1),
            Ok(out) => {
                let rows = device_rows(out);
                let have = rs.len() - (at + 1);
                if have < rows.len() {
                    (StepView::Run(device_ip4_args(piece(rows[have], 0))), rs.len() as int)
                } else {
                    (
                        StepView::Done(
                            Ok(Seq::new(rows.len(), |i: int| device_of(rows[i], rs[at + 1 + i]))),
                        ),
                        at + 1 + rows.len(),
                    )
                }
            },
        }
    }
}

pub(crate) fn run_device_table() -> (s: Vec<String>)
    ensures
        strs(s@) == device_table_args(),
{
    let v = vec![lit("-t"), lit("-f"), lit("DEVICE,TYPE,STATE,CONNECTION"), lit("device")];
    assert(strs(v@) =~= device_table_args());
    v
}

pub(crate) fn run_device_ip4(name: &[char]) -> (s: Vec<String>)
    ensures
        strs(s@) == device_ip4_args(name@),
{
    let v = vec![lit("-g"), lit("IP4.ADDRESS"), lit("device"), lit("show"), string_of(name)];
    assert(strs(v@) =~= device_ip4_args(name@));
    v
}

pub(crate) fn devices_from(rs: &[Reply], at: usize) -> (r: (Step<Vec<DeviceInfo>, NmError>, usize))
    ensures
        r.0.deep_view() == devices_at(rs@, at as int).0,
        r.1 == devices_at(rs@, at as int).1,
{
    if at >= rs.len() {
        return (Step::Run(run_device_table()), at);
    }
    let out = match outcome_of(&rs[at]) {
        Err(e) => {
            return (Step::Done(Err(e)), at + 1);
        },
        Ok(out) => out,
    };
    let ls = lines_of(out.as_slice());
    let ghost m = split_rows(lines(out@), 4);
    let ghost rows = device_rows(out@);
    let mut devices: Vec<DeviceInfo> = Vec::new();
    let mut next: usize = at + 1;
    let mut i: usize = 0;
    while i < ls.len()
        invariant
            at < rs@.len(),
            outcome(rs@[at as int]) == Ok::<Seq<char>, NmErrorView>(out@),
            seqs(ls@) == lines(out@),
            m == split_rows(lines(out@), 4),
            rows == m.filter(not_loopback_row()),
            i <= ls@.len(),
            next == at + 1 + m.take(i as int).filter(not_loopback_row()).len(),
            next <= rs@.len(),
            devices@.len() == m.take(i as int).filter(not_loopback_row()).len(),
            forall|k: int|
                0 <= k < devices@.len() ==> #[trigger] devices@[k].deep_view() == device_of(
                    m.take(i as int).filter(not_loopback_row())[k],
                    rs@[at + 1 + k],
                ),
        decreases ls@.len() - i,
    {
        let p = splitn_chars(ls[i].as_slice(), 4, ':');
        proof {
            lemma_filter_take_next(m, not_loopback_row(), i as int);
            lemma_filter_take(m, not_loopback_row(), i as int);
            assert(ls@[i as int]@ == lines(out@)[i as int]);
            assert(seqs(p@) == m[i as int]);
        }
        let ty = piece_of(&p, 1);
        if eq_str(ty.as_slice(), "loopback") {
            i += 1;
            continue;
        }
        let name = piece_of(&p, 0);
        if next >= rs.len() {
            proof {
                let t = m.take(i as int).filter(not_loopback_row());
                lemma_filter_take(m, not_loopback_row(), i + 1);
                assert(not_loopback_row()(m[i as int]));
                assert(m.take(i + 1).filter(not_loopback_row()) == t.push(m[i as int]));
                assert(rows.take(t.len() as int + 1) == t.push(m[i as int]));
                assert(rows.take(t.len() as int + 1)[t.len() as int] == m[i as int]);
                assert(rows[t.len() as int] == m[i as int]);
            }
            return (Step::Run(run_device_ip4(name.as_slice())), rs.len());
        }
        let ip_out = output_or_empty_of(&rs[next]);
        let ip_lines = lines_of(ip_out.as_slice());
        let ip = piece_of(&ip_lines, 0);
        let state = piece_of(&p, 2);
        let connection = piece_of(&p, 3);
        let dev = DeviceInfo {
            name: string_of(name.as_slice()),
            device_type: string_of(ty.as_slice()),
            state: string_of(state.as_slice()),
            connection: string_of(connection.as_slice()),
            ip4: string_of(ip.as_slice()),
        };
        let ghost before = devices@;
        devices.push(dev);
        next += 1;
        i += 1;
        proof {
            let t = m.take(i as int).filter(not_loopback_row());
            assert(t == m.take(i - 1).filter(not_loopback_row()).push(m[i - 1]));
            assert(dev.deep_view() == device_of(m[i - 1], rs@[at + 1 + before.len()]));
            assert forall|k: int| 0 <= k < devices@.len() implies #[trigger] devices@[k].deep_view()
                == device_of(t[k], rs@[at + 1 + k]) by {
                if k < before.len() {
                    assert(devices@[k] == before[k]);
                }
            }
        }
    }
    proof {
        assert(m.take(ls@.len() as int) =~= m);
        assert(m.len() == ls@.len());
        let want = Seq::new(rows.len(), |k: int| device_of(rows[k], rs@[at + 1 + k]));
        assert(devices.deep_view() =~= want);
    }
    (Step::Done(Ok(devices)), next)
}

/// The devices that NetworkManager manages, loopback left out, each with the
/// first line of its IPv4 addresses (empty where the query fails).
pub fn list_devices(replies: &[Reply]) -> (step: Step<Vec<DeviceInfo>, NmError>)
    ensures
        step.deep_view() == devices_at(replies@, 0).0,
{
    devices_from(replies, 0).0
}


// ---------------------------------------------------------------------------
// Connection profiles
// ---------------------------------------------------------------------------

/// `nmcli -t -f NAME,UUID,TYPE,DEVICE connection show`
pub open spec fn connection_table_args() -> Seq<Seq<char>> {
    seq!["-t"@, "-f"@, "NAME,UUID,TYPE,DEVICE"@, "connection"@, "show"@]
}

/// `nmcli -t -f NAME connection show --active`
pub open spec fn active_names_args() -> Seq<Seq<char>> {
    seq!["-t"@, "-f"@, "NAME"@, "connection"@, "show"@, "--active"@]
}

/// `nmcli -g 802-11-wireless.ssid connection show <uuid>`
pub open spec fn profile_ssid_args(uuid: Seq<char>) -> Seq<Seq<char>> {
    seq!["-g"@, "802-11-wireless.ssid"@, "connection"@, "show"@, uuid]
}

/// The rows of the profile table, loopback left out.
pub open spec fn connection_rows(out: Seq<char>) -> Seq<Seq<Seq<char>>> {
    split_rows(lines(out), 4).filter(field_is_not(2, "loopback"@))
}

/// A WiFi profile: its type is `802-11-wireless` or `wifi`.
pub open spec fn wireless_profile() -> spec_fn(Seq<Seq<char>>) -> bool {
    field_is_either(2, "802-11-wireless"@, "wifi"@)
}

/// The profile of a table row; it is active when its name is one of the
/// lines of `active_out`.
pub open spec fn connection_of(row: Seq<Seq<char>>, active_out: Seq<char>, ssid: Seq<char>) -> ConnectionView {
    ConnectionView {
        name: piece(row, 0),
        uuid: piece(row, 1),
        connection_type: piece(row, 2),
        device: piece(row, 3),
        active: lines(active_out).contains(piece(row, 0)),
        ssid,
    }
}

/// The SSID of row `i`: the output of its query for a WiFi profile (the
/// queries follow reply `base`, one per WiFi profile), else empty.
pub open spec fn profile_ssid(rs: Seq<Reply>, rows: Seq<Seq<Seq<char>>>, i: int, base: int) -> Seq<char> {
    if wireless_profile()(rows[i]) {
        output_or_empty(rs[base + rows.take(i).filter(wireless_profile()).len()])
    } else {
        Seq::<char>::empty()
    }
}

/// Listing the connection profiles from reply `at` on.
pub open spec fn connections_at(rs: Seq<Reply>, at: int) -> (StepView<Seq<ConnectionView>, NmErrorView>, int) {
    if at >= rs.len() {
        (StepView::Run(connection_table_args()), at)
    } else {
        match outcome(rs[at]) {
            Err(e) => (StepView::Done(Err(e)), at + 1),
            Ok(out) => {
                if at + 1 >= rs.len() {
                    (StepView::Run(active_names_args()), rs.len() as int)
                } else {
                    let active = output_or_empty(rs[at + 1]);
                    let rows = connection_rows(out);
                    let w = rows.filter(wireless_profile());
                    let have = rs.len() - (at + 2);
                    if have < w.len() {
                        (StepView::Run(profile_ssid_args(piece(w[have], 1))), rs.len() as int)
                    } else {
                        (
                            StepView::Done(
                                Ok(
                                    Seq::new(
                                        rows.len(),
                                        |i: int|
                                            connection_of(
                                                rows[i],
                                                active,
                                                profile_ssid(rs, rows, i, at + 2),
                                            ),
                                    ),
                                ),
                            ),
                            at + 2 + w.len(),
                        )
                    }
                }
            },
        }
    }
}

pub(crate) fn args_connection_table() -> (s: Vec<String>)
    ensures
        strs(s@) == connection_table_args(),
{
    let v = vec![lit("-t"), lit("-f"), lit("NAME,UUID,TYPE,DEVICE"), lit("connection"), lit("show")];
    assert(strs(v@) =~= connection_table_args());
    v
}

pub(crate) fn args_active_names() -> (s: Vec<String>)
    ensures
        strs(s@) == active_names_args(),
{
    let v = vec![lit("-t"), lit("-f"), lit("NAME"), lit("connection"), lit("show"), lit("--active")];
    assert(strs(v@) =~= active_names_args());
    v
}

pub(crate) fn args_profile_ssid(uuid: &[char]) -> (s: Vec<String>)
    ensures
        strs(s@) == profile_ssid_args(uuid@),
{
    let v = vec![lit("-g"), lit("802-11-wireless.ssid"), lit("connection"), lit("show"), string_of(uuid)];
    assert(strs(v@) =~= profile_ssid_args(uuid@));
    v
}

fn connections_from(rs: &[Reply], at: usize) -> (r: (Step<Vec<ConnectionInfo>, NmError>, usize))
    ensures
        r.0.deep_view() == connections_at(rs@, at as int).0,
        r.1 == connections_at(rs@, at as int).1,
{
    if at >= rs.len() {
        return (Step::Run(args_connection_table()), at);
    }
    let out = match outcome_of(&rs[at]) {
        Err(e) => {
            return (Step::Done(Err(e)), at + 1);
        },
        Ok(out) => out,
    };
    if at + 1 >= rs.len() {
        return (Step::Run(args_active_names()), rs.len());
    }
    let active = output_or_empty_of(&rs[at + 1]);
    let active_lines = lines_of(active.as_slice());
    let ls = lines_of(out.as_slice());
    let rows = rows_without(&ls, 4, 2, "loopback");
    let ghost rv = rows_of(rows@);
    let ghost w = rv.filter(wireless_profile());
    assert(rv == connection_rows(out@));
    let mut conns: Vec<ConnectionInfo> = Vec::new();
    let mut next: usize = at + 2;
    let mut j: usize = 0;
    while j < rows.len()
        invariant
            at + 1 < rs@.len(),
            outcome(rs@[at as int]) == Ok::<Seq<char>, NmErrorView>(out@),
            rv == rows_of(rows@),
            rv == connection_rows(out@),
            w == rv.filter(wireless_profile()),
            active@ == output_or_empty(rs@[at + 1]),
            seqs(active_lines@) == lines(active@),
            j <= rows@.len(),
            next == at + 2 + rv.take(j as int).filter(wireless_profile()).len(),
            next <= rs@.len(),
            conns@.len() == j,
            forall|k: int|
                0 <= k < j ==> #[trigger] conns@[k].deep_view() == connection_of(
                    rv[k],
                    active@,
                    profile_ssid(rs@, rv, k, at + 2),
                ),
        decreases rows@.len() - j,
    {
        let row = &rows[j];
        assert(seqs(row@) == rv[j as int]);
        proof {
            lemma_filter_take_next(rv, wireless_profile(), j as int);
            lemma_filter_take(rv, wireless_profile(), j as int + 1);
        }
        let name = piece_of(row, 0);
        let uuid = piece_of(row, 1);
        let ty = piece_of(row, 2);
        let device = piece_of(row, 3);
        let wireless = eq_str(ty.as_slice(), "802-11-wireless") || eq_str(ty.as_slice(), "wifi");
        let ssid = if wireless {
            if next >= rs.len() {
                proof {
                    let t = rv.take(j as int).filter(wireless_profile());
                    assert(wireless_profile()(rv[j as int]));
                    assert(rv.take(j + 1).filter(wireless_profile()) == t.push(rv[j as int]));
                    assert(w.take(t.len() as int + 1) == t.push(rv[j as int]));
                    assert(w.take(t.len() as int + 1)[t.len() as int] == rv[j as int]);
                    assert(w[t.len() as int] == rv[j as int]);
                }
                return (Step::Run(args_profile_ssid(uuid.as_slice())), rs.len());
            }
            let s = output_or_empty_of(&rs[next]);
            next += 1;
            s
        } else {
            Vec::new()
        };
        let is_active = has_line(&active_lines, name.as_slice());
        let c = ConnectionInfo {
            name: string_of(name.as_slice()),
            uuid: string_of(uuid.as_slice()),
            connection_type: string_of(ty.as_slice()),
            device: string_of(device.as_slice()),
            active: is_active,
            ssid: string_of(ssid.as_slice()),
        };
        proof {
            assert(c.deep_view() == connection_of(rv[j as int], active@, profile_ssid(rs@, rv, j as int, at + 2)));
        }
        let ghost before = conns@;
        conns.push(c);
        j += 1;
        proof {
            assert forall|k: int| 0 <= k < j implies #[trigger] conns@[k].deep_view() == connection_of(
                rv[k],
                active@,
                profile_ssid(rs@, rv, k, at + 2),
            ) by {
                if k < before.len() {
                    assert(conns@[k] == before[k]);
                }
            }
        }
    }
    proof {
        assert(rv.take(rv.len() as int) =~= rv);
        let want = Seq::new(
            rv.len(),
            |i: int| connection_of(rv[i], active@, profile_ssid(rs@, rv, i, at + 2)),
        );
        assert(conns.deep_view() =~= want);
    }
    (Step::Done(Ok(conns)), next)
}

/// The saved connection profiles, loopback left out. A profile is active when
/// its name is a line of the list of active profiles (taken as empty where
/// that query fails); a WiFi profile carries the SSID that its query prints
/// (empty where that query fails).
pub fn list_connections(replies: &[Reply]) -> (step: Step<Vec<ConnectionInfo>, NmError>)
    ensures
        step.deep_view() == connections_at(replies@, 0).0,
{
    connections_from(replies, 0).0
}


// ---------------------------------------------------------------------------
// WiFi networks in range
// ---------------------------------------------------------------------------

/// `nmcli device wifi rescan`
pub open spec fn rescan_args() -> Seq<Seq<char>> {
    seq!["device"@, "wifi"@, "rescan"@]
}

/// `nmcli -t -f SSID,SIGNAL,SECURITY,IN-USE,BSSID device wifi list`
pub open spec fn wifi_list_args() -> Seq<Seq<char>> {
    seq!["-t"@, "-f"@, "SSID,SIGNAL,SECURITY,IN-USE,BSSID"@, "device"@, "wifi"@, "list"@]
}

/// A profile type that stands for WiFi.
pub open spec fn is_wifi_type(t: Seq<char>) -> bool {
    contains(t, "wireless"@) || t == "wifi"@
}

/// The name under which a WiFi profile counts as saved: its SSID, or its
/// name where it has no SSID.
pub open spec fn saved_key(c: ConnectionView) -> Seq<char> {
    if c.ssid.len() == 0 {
        c.name
    } else {
        c.ssid
    }
}

/// The names under which the WiFi profiles among `conns` count as saved.
pub open spec fn saved_keys(conns: Seq<ConnectionView>) -> Seq<Seq<char>> {
    conns.filter(|c: ConnectionView| is_wifi_type(c.connection_type)).map_values(
        |c: ConnectionView| saved_key(c),
    )
}

/// The signal strength field: its value, or 0 where it is no number from 0 to 255.
pub open spec fn signal_value(f: Seq<char>) -> u8 {
    match parse_unsigned(f, 255) {
        Some(v) => v as u8,
        None => 0,
    }
}

/// The security field: `Open` where it is empty or `--`.
pub open spec fn security_value(f: Seq<char>) -> Seq<char> {
    if f.len() == 0 || f == "--"@ {
        "Open"@
    } else {
        f
    }
}

/// The network of a line of the WiFi list.
pub open spec fn network_of(row: Seq<Seq<char>>, keys: Seq<Seq<char>>) -> WifiView {
    let ssid = remove_char(piece(row, 0), '\\');
    WifiView {
        ssid,
        signal: signal_value(piece(row, 1)),
        security: security_value(piece(row, 2)),
        in_use: piece(row, 3) == "*"@,
        saved: keys.contains(ssid),
    }
}

/// A network with a name.
pub open spec fn named_network() -> spec_fn(WifiView) -> bool {
    |n: WifiView| n.ssid.len() > 0
}

/// The networks of the WiFi list, in the order listed, nameless ones left out.
pub open spec fn listed_networks(out: Seq<char>, keys: Seq<Seq<char>>) -> Seq<WifiView> {
    split_rows(lines(out), 5).map_values(|r: Seq<Seq<char>>| network_of(r, keys)).filter(
        named_network(),
    )
}

/// Networks whose signal is `v`.
pub open spec fn signal_is(v: u8) -> spec_fn(WifiView) -> bool {
    |n: WifiView| n.signal == v
}

/// The networks whose signal is `v` or lower, strongest first; those of equal
/// signal in their order in `s`.
pub open spec fn signal_buckets(s: Seq<WifiView>, v: int) -> Seq<WifiView>
    decreases v + 1,
{
    if v < 0 {
        Seq::<WifiView>::empty()
    } else {
        s.filter(signal_is(v as u8)) + signal_buckets(s, v - 1)
    }
}

/// `s` sorted by signal, strongest first, keeping the order of equal signals.
pub open spec fn sort_by_signal(s: Seq<WifiView>) -> Seq<WifiView> {
    signal_buckets(s, 255)
}

/// `s` without each network whose SSID is that of the network kept before it.
pub open spec fn dedup_ssid(s: Seq<WifiView>) -> Seq<WifiView>
    decreases s.len(),
{
    if s.len() == 0 {
        s
    } else {
        let d = dedup_ssid(s.drop_last());
        if d.len() > 0 && d.last().ssid == s.last().ssid {
            d
        } else {
            d.push(s.last())
        }
    }
}

/// The WiFi list as the panel shows it.
pub open spec fn wifi_result(out: Seq<char>, keys: Seq<Seq<char>>) -> Seq<WifiView> {
    dedup_ssid(sort_by_signal(listed_networks(out, keys)))
}

/// Listing the WiFi networks from reply `at` on, after a rescan where asked.
pub open spec fn wifi_at(rescan: bool, keys: Seq<Seq<char>>, rs: Seq<Reply>, at: int) -> (
    StepView<Seq<WifiView>, NmErrorView>,
    int,
) {
    if rescan && at >= rs.len() {
        (StepView::Run(rescan_args()), at)
    } else {
        let at2 = if rescan {
            at + 1
        } else {
            at
        };
        if at2 >= rs.len() {
            (StepView::Run(wifi_list_args()), at2)
        } else {
            match outcome(rs[at2]) {
                Err(e) => (StepView::Done(Err(e)), at2 + 1),
                Ok(out) => (StepView::Done(Ok(wifi_result(out, keys))), at2 + 1),
            }
        }
    }
}

pub(crate) fn args_rescan() -> (s: Vec<String>)
    ensures
        strs(s@) == rescan_args(),
{
    let v = vec![lit("device"), lit("wifi"), lit("rescan")];
    assert(strs(v@) =~= rescan_args());
    v
}

pub(crate) fn args_wifi_list() -> (s: Vec<String>)
    ensures
        strs(s@) == wifi_list_args(),
{
    let v = vec![lit("-t"), lit("-f"), lit("SSID,SIGNAL,SECURITY,IN-USE,BSSID"), lit("device"), lit("wifi"), lit("list")];
    assert(strs(v@) =~= wifi_list_args());
    v
}

fn saved_keys_of(conns: &[ConnectionInfo]) -> (keys: Vec<Vec<char>>)
    ensures
        seqs(keys@) == saved_keys(conns.deep_view()),
{
    let ghost cv = conns.deep_view();
    let ghost p = |c: ConnectionView| is_wifi_type(c.connection_type);
    let ghost f = |c: ConnectionView| saved_key(c);
    let mut keys: Vec<Vec<char>> = Vec::new();
    let mut i: usize = 0;
    while i < conns.len()
        invariant
            cv == conns.deep_view(),
            p == (|c: ConnectionView| is_wifi_type(c.connection_type)),
            f == (|c: ConnectionView| saved_key(c)),
            i <= conns@.len(),
            seqs(keys@) == cv.take(i as int).filter(p).map_values(f),
        decreases conns@.len() - i,
    {
        proof {
            lemma_filter_take_next(cv, p, i as int);
        }
        let c = &conns[i];
        let ty = chars_of(c.connection_type.as_str());
        if contains_str(ty.as_slice(), "wireless") || eq_str(ty.as_slice(), "wifi") {
            let ssid = chars_of(c.ssid.as_str());
            let key = if ssid.len() == 0 {
                chars_of(c.name.as_str())
            } else {
                ssid
            };
            let ghost before = keys@;
            keys.push(key);
            proof {
                assert(cv[i as int] == c.deep_view());
                assert(p(cv[i as int]));
                assert(key@ == f(cv[i as int]));
                assert(cv.take(i + 1).filter(p) == cv.take(i as int).filter(p).push(cv[i as int]));
                assert(seqs(keys@) =~= seqs(before).push(key@));
                assert(cv.take(i + 1).filter(p).map_values(f) =~= cv.take(i as int).filter(p).map_values(f).push(f(cv[i as int])));
                assert(seqs(keys@) =~= cv.take(i + 1).filter(p).map_values(f));
            }
        }
        i += 1;
    }
    assert(cv.take(conns@.len() as int) =~= cv);
    keys
}

fn key_saved(keys: &Vec<Vec<char>>, ssid: &[char]) -> (r: bool)
    ensures
        r == seqs(keys@).contains(ssid@),
{
    has_line(keys, ssid)
}

fn candidate_networks(out: &Vec<char>, keys: &Vec<Vec<char>>) -> (v: Vec<WifiNetwork>)
    ensures
        v.deep_view() == listed_networks(out@, seqs(keys@)),
{
    let ls = lines_of(out.as_slice());
    let ghost kv = seqs(keys@);
    let ghost all = split_rows(lines(out@), 5).map_values(|r: Seq<Seq<char>>| network_of(r, kv));
    let mut v: Vec<WifiNetwork> = Vec::new();
    let mut i: usize = 0;
    while i < ls.len()
        invariant
            seqs(ls@) == lines(out@),
            kv == seqs(keys@),
            all == split_rows(lines(out@), 5).map_values(|r: Seq<Seq<char>>| network_of(r, kv)),
            i <= ls@.len(),
            v.deep_view() == all.take(i as int).filter(named_network()),
        decreases ls@.len() - i,
    {
        proof {
            lemma_filter_take_next(all, named_network(), i as int);
        }
        let p = splitn_chars(ls[i].as_slice(), 5, ':');
        assert(seqs(p@) == split_rows(lines(out@), 5)[i as int]);
        let f0 = piece_of(&p, 0);
        let ssid = remove_char_chars(f0.as_slice(), '\\');
        let f1 = piece_of(&p, 1);
        let signal: u8 = match parse_u8_chars(f1.as_slice()) {
            Some(x) => x,
            None => 0,
        };
        let f2 = piece_of(&p, 2);
        let security = if f2.len() == 0 || eq_str(f2.as_slice(), "--") {
            chars_of("Open")
        } else {
            f2
        };
        let f3 = piece_of(&p, 3);
        let in_use = eq_str(f3.as_slice(), "*");
        let saved = key_saved(keys, ssid.as_slice());
        let n = WifiNetwork {
            ssid: string_of(ssid.as_slice()),
            signal,
            security: string_of(security.as_slice()),
            in_use,
            saved,
        };
        assert(n.deep_view() == all[i as int]);
        if ssid.len() > 0 {
            let ghost before = v.deep_view();
            v.push(n);
            assert(v.deep_view() =~= before.push(n.deep_view()));
        }
        i += 1;
    }
    assert(all.take(ls@.len() as int) =~= all);
    v
}

pub(crate) fn sorted_by_signal(s: &Vec<WifiNetwork>) -> (v: Vec<WifiNetwork>)
    ensures
        v.deep_view() == sort_by_signal(s.deep_view()),
{
    let ghost sv = s.deep_view();
    let mut v: Vec<WifiNetwork> = Vec::new();
    let mut level: u16 = 256;
    while level > 0
        invariant
            level <= 256,
            sv == s.deep_view(),
            v.deep_view() + signal_buckets(sv, level - 1) == sort_by_signal(sv),
        decreases level,
    {
        level -= 1;
        let want: u8 = level as u8;
        let ghost start = v.deep_view();
        let mut i: usize = 0;
        while i < s.len()
            invariant
                i <= s@.len(),
                sv == s.deep_view(),
                want == level,
                v.deep_view() == start + sv.take(i as int).filter(signal_is(want)),
            decreases s@.len() - i,
        {
            proof {
                lemma_filter_take_next(sv, signal_is(want), i as int);
            }
            if s[i].signal == want {
                let n = s[i].copy();
                let ghost before = v.deep_view();
                v.push(n);
                assert(v.deep_view() =~= before.push(n.deep_view()));
            }
            i += 1;
        }
        proof {
            assert(sv.take(sv.len() as int) =~= sv);
            assert(signal_buckets(sv, level as int) == sv.filter(signal_is(want)) + signal_buckets(sv, level - 1));
            assert(v.deep_view() + signal_buckets(sv, level - 1) =~= start + signal_buckets(sv, level as int));
        }
    }
    assert(v.deep_view() =~= v.deep_view() + signal_buckets(sv, -1));
    v
}

pub(crate) fn dedup_by_ssid(s: &Vec<WifiNetwork>) -> (v: Vec<WifiNetwork>)
    ensures
        v.deep_view() == dedup_ssid(s.deep_view()),
{
    let ghost sv = s.deep_view();
    let mut v: Vec<WifiNetwork> = Vec::new();
    let mut i: usize = 0;
    while i < s.len()
        invariant
            sv == s.deep_view(),
            i <= s@.len(),
            v.deep_view() == dedup_ssid(sv.take(i as int)),
        decreases s@.len() - i,
    {
        proof {
            assert(sv.take(i + 1).drop_last() =~= sv.take(i as int));
            assert(sv.take(i + 1).last() == sv[i as int]);
        }
        let k = v.len();
        let dup = k > 0 && v[k - 1].ssid == s[i].ssid;
        if !dup {
            let n = s[i].copy();
            let ghost before = v.deep_view();
            v.push(n);
            assert(v.deep_view() =~= before.push(n.deep_view()));
        }
        i += 1;
    }
    assert(sv.take(sv.len() as int) =~= sv);
    v
}

fn wifi_from(rescan: bool, keys: &Vec<Vec<char>>, rs: &[Reply], at: usize) -> (r: (Step<Vec<WifiNetwork>, NmError>, usize))
    ensures
        r.0.deep_view() == wifi_at(rescan, seqs(keys@), rs@, at as int).0,
        r.1 == wifi_at(rescan, seqs(keys@), rs@, at as int).1,
{
    if rescan && at >= rs.len() {
        return (Step::Run(args_rescan()), at);
    }
    let at2 = if rescan {
        at + 1
    } else {
        at
    };
    if at2 >= rs.len() {
        return (Step::Run(args_wifi_list()), at2);
    }
    match outcome_of(&rs[at2]) {
        Err(e) => (Step::Done(Err(e)), at2 + 1),
        Ok(out) => {
            let c = candidate_networks(&out, keys);
            let sorted = sorted_by_signal(&c);
            let d = dedup_by_ssid(&sorted);
            (Step::Done(Ok(d)), at2 + 1)
        },
    }
}

/// The WiFi networks in range, after a rescan where `rescan` asks for one
/// (its failure is ignored): strongest signal first, networks of equal
/// signal in the order listed, each network dropped whose SSID is that of
/// the network kept before it. A network is saved when its SSID is the SSID
/// (or, lacking one, the name) of one of the WiFi profiles among `connections`.
pub fn list_wifi(rescan: bool, connections: &[ConnectionInfo], replies: &[Reply]) -> (step: Step<Vec<WifiNetwork>, NmError>)
    ensures
        step.deep_view() == wifi_at(rescan, saved_keys(connections.deep_view()), replies@, 0).0,
{
    let keys = saved_keys_of(connections);
    wifi_from(rescan, &keys, replies, 0).0
}


// ---------------------------------------------------------------------------
// Requests of one command
// ---------------------------------------------------------------------------

/// A request that is one run of `args`: it succeeds when the run does.
pub open spec fn single_at(args: Seq<Seq<char>>, rs: Seq<Reply>, at: int) -> (StepView<(), NmErrorView>, int) {
    if at >= rs.len() {
        (StepView::Run(args), at)
    } else {
        match outcome(rs[at]) {
            Ok(_) => (StepView::Done(Ok(())), at + 1),
            Err(e) => (StepView::Done(Err(e)), at + 1),
        }
    }
}

pub(crate) fn single_steps(args: Vec<String>, rs: &[Reply], at: usize) -> (r: (Step<(), NmError>, usize))
    ensures
        r.0.deep_view() == single_at(strs(args@), rs@, at as int).0,
        r.1 == single_at(strs(args@), rs@, at as int).1,
{
    if at >= rs.len() {
        return (Step::Run(args), at);
    }
    match outcome_of(&rs[at]) {
        Ok(_) => (Step::Done(Ok(())), at + 1),
        Err(e) => (Step::Done(Err(e)), at + 1),
    }
}

/// `nmcli radio wifi on|off`
pub open spec fn radio_set_args(enabled: bool) -> Seq<Seq<char>> {
    seq!["radio"@, "wifi"@, if enabled { "on"@ } else { "off"@ }]
}

/// Switches the WiFi radio on or off.
pub fn set_wifi_enabled(enabled: bool, replies: &[Reply]) -> (step: Step<(), NmError>)
    ensures
        step.deep_view() == single_at(radio_set_args(enabled), replies@, 0).0,
{
    let state = if enabled {
        lit("on")
    } else {
        lit("off")
    };
    let v = vec![lit("radio"), lit("wifi"), state];
    assert(strs(v@) =~= radio_set_args(enabled));
    single_steps(v, replies, 0).0
}

/// `nmcli connection up <uuid>`
pub open spec fn up_args(uuid: Seq<char>) -> Seq<Seq<char>> {
    seq!["connection"@, "up"@, uuid]
}

/// `nmcli connection down <uuid>`
pub open spec fn down_args(uuid: Seq<char>) -> Seq<Seq<char>> {
    seq!["connection"@, "down"@, uuid]
}

/// `nmcli connection delete <uuid>`
pub open spec fn delete_args(uuid: Seq<char>) -> Seq<Seq<char>> {
    seq!["connection"@, "delete"@, uuid]
}

pub(crate) fn up_arg_list(uuid: &[char]) -> (s: Vec<String>)
    ensures
        strs(s@) == up_args(uuid@),
{
    let v = vec![lit("connection"), lit("up"), string_of(uuid)];
    assert(strs(v@) =~= up_args(uuid@));
    v
}

pub(crate) fn args_down(uuid: &[char]) -> (s: Vec<String>)
    ensures
        strs(s@) == down_args(uuid@),
{
    let v = vec![lit("connection"), lit("down"), string_of(uuid)];
    assert(strs(v@) =~= down_args(uuid@));
    v
}

pub(crate) fn args_delete(uuid: &[char]) -> (s: Vec<String>)
    ensures
        strs(s@) == delete_args(uuid@),
{
    let v = vec![lit("connection"), lit("delete"), string_of(uuid)];
    assert(strs(v@) =~= delete_args(uuid@));
    v
}

/// Brings the profile `uuid` up.
pub fn activate_connection(uuid: &str, replies: &[Reply]) -> (step: Step<(), NmError>)
    ensures
        step.deep_view() == single_at(up_args(uuid@), replies@, 0).0,
{
    let u = chars_of(uuid);
    single_steps(up_arg_list(u.as_slice()), replies, 0).0
}

/// Takes the profile `uuid` down.
pub fn deactivate_connection(uuid: &str, replies: &[Reply]) -> (step: Step<(), NmError>)
    ensures
        step.deep_view() == single_at(down_args(uuid@), replies@, 0).0,
{
    let u = chars_of(uuid);
    single_steps(args_down(u.as_slice()), replies, 0).0
}

// ---------------------------------------------------------------------------
// Connecting to and forgetting WiFi networks
// ---------------------------------------------------------------------------

/// `nmcli device wifi connect <ssid> password <password>`
pub open spec fn connect_password_args(ssid: Seq<char>, password: Seq<char>) -> Seq<Seq<char>> {
    seq!["device"@, "wifi"@, "connect"@, ssid, "password"@, password]
}

/// `nmcli device wifi connect <ssid>`
pub open spec fn connect_args(ssid: Seq<char>) -> Seq<Seq<char>> {
    seq!["device"@, "wifi"@, "connect"@, ssid]
}

/// The first profile from index `i` on whose SSID or name is `ssid`.
pub open spec fn first_profile_from(conns: Seq<ConnectionView>, ssid: Seq<char>, i: int) -> Option<int>
    decreases conns.len() - i,
{
    if i < 0 || i >= conns.len() {
        None
    } else if conns[i].ssid == ssid || conns[i].name == ssid {
        Some(i)
    } else {
        first_profile_from(conns, ssid, i + 1)
    }
}

/// The first profile whose SSID or name is `ssid`.
pub open spec fn first_profile(conns: Seq<ConnectionView>, ssid: Seq<char>) -> Option<int> {
    first_profile_from(conns, ssid, 0)
}

proof fn lemma_first_profile_from_bounds(conns: Seq<ConnectionView>, ssid: Seq<char>, i: int)
    ensures
        first_profile_from(conns, ssid, i) matches Some(k) ==> 0 <= k < conns.len() && (
        conns[k].ssid == ssid || conns[k].name == ssid),
    decreases conns.len() - i,
{
    if 0 <= i < conns.len() {
        lemma_first_profile_from_bounds(conns, ssid, i + 1);
    }
}

fn find_profile(conns: &Vec<ConnectionInfo>, ssid: &[char]) -> (r: Option<usize>)
    ensures
        match r {
            Some(k) => first_profile(conns.deep_view(), ssid@) == Some(k as int) && k < conns@.len(),
            None => first_profile(conns.deep_view(), ssid@) is None,
        },
{
    let ghost cv = conns.deep_view();
    let mut i: usize = 0;
    while i < conns.len()
        invariant
            cv == conns.deep_view(),
            i <= conns@.len(),
            first_profile_from(cv, ssid@, 0) == first_profile_from(cv, ssid@, i as int),
        decreases conns@.len() - i,
    {
        let c = &conns[i];
        let cs = chars_of(c.ssid.as_str());
        let cn = chars_of(c.name.as_str());
        assert(cv[i as int] == c.deep_view());
        if eq_chars(cs.as_slice(), ssid) || eq_chars(cn.as_slice(), ssid) {
            return Some(i);
        }
        i += 1;
    }
    None
}

/// Connecting to `ssid`: with a password that is not empty, a connect
/// command that carries it; else through the first profile whose SSID or name
/// is `ssid`, brought up with no password; else a connect command without one.
pub open spec fn connect_at(ssid: Seq<char>, password: Option<Seq<char>>, rs: Seq<Reply>) -> StepView<(), NmErrorView> {
    match password {
        Some(p) if p.len() > 0 => single_at(connect_password_args(ssid, p), rs, 0).0,
        _ => {
            let (c, k) = connections_at(rs, 0);
            match c {
                StepView::Run(a) => StepView::Run(a),
                StepView::Done(Err(e)) => StepView::Done(Err(e)),
                StepView::Done(Ok(conns)) => match first_profile(conns, ssid) {
                    Some(i) => single_at(up_args(conns[i].uuid), rs, k).0,
                    None => single_at(connect_args(ssid), rs, k).0,
                },
            }
        },
    }
}

/// The password as text, where there is one.
pub open spec fn password_view(password: Option<&str>) -> Option<Seq<char>> {
    match password {
        Some(p) => Some(p@),
        None => None,
    }
}

/// Connects to the WiFi network `ssid`; a saved network reconnects through
/// its profile, without a password.
pub fn connect_wifi(ssid: &str, password: Option<&str>, replies: &[Reply]) -> (step: Step<(), NmError>)
    ensures
        step.deep_view() == connect_at(ssid@, password_view(password), replies@),
{
    let s = chars_of(ssid);
    match password {
        Some(p) => {
            let pc = chars_of(p);
            if pc.len() > 0 {
                let v = vec![lit("device"), lit("wifi"), lit("connect"), string_of(s.as_slice()), lit("password"), string_of(pc.as_slice())];
                assert(strs(v@) =~= connect_password_args(s@, pc@));
                return single_steps(v, replies, 0).0;
            }
        },
        None => {},
    }
    let (c, k) = connections_from(replies, 0);
    match c {
        Step::Run(a) => Step::Run(a),
        Step::Done(Err(e)) => Step::Done(Err(e)),
        Step::Done(Ok(conns)) => {
            match find_profile(&conns, s.as_slice()) {
                Some(i) => {
                    let u = chars_of(conns[i].uuid.as_str());
                    assert(conns.deep_view()[i as int] == conns@[i as int].deep_view());
                    single_steps(up_arg_list(u.as_slice()), replies, k).0
                },
                None => {
                    let v = vec![lit("device"), lit("wifi"), lit("connect"), string_of(s.as_slice())];
                    assert(strs(v@) =~= connect_args(s@));
                    single_steps(v, replies, k).0
                },
            }
        },
    }
}

/// Forgetting `ssid`: deleting the first profile whose SSID or name is
/// `ssid`; `NotFound` where there is none.
pub open spec fn forget_at(ssid: Seq<char>, rs: Seq<Reply>) -> StepView<(), NmErrorView> {
    let (c, k) = connections_at(rs, 0);
    match c {
        StepView::Run(a) => StepView::Run(a),
        StepView::Done(Err(e)) => StepView::Done(Err(e)),
        StepView::Done(Ok(conns)) => match first_profile(conns, ssid) {
            Some(i) => single_at(delete_args(conns[i].uuid), rs, k).0,
            None => StepView::Done(Err(NmErrorView::NotFound)),
        },
    }
}

/// Deletes the profile of the WiFi network `ssid`.
pub fn forget_wifi(ssid: &str, replies: &[Reply]) -> (step: Step<(), NmError>)
    ensures
        step.deep_view() == forget_at(ssid@, replies@),
{
    let s = chars_of(ssid);
    let (c, k) = connections_from(replies, 0);
    match c {
        Step::Run(a) => Step::Run(a),
        Step::Done(Err(e)) => Step::Done(Err(e)),
        Step::Done(Ok(conns)) => {
            match find_profile(&conns, s.as_slice()) {
                Some(i) => {
                    let u = chars_of(conns[i].uuid.as_str());
                    assert(conns.deep_view()[i as int] == conns@[i as int].deep_view());
                    single_steps(args_delete(u.as_slice()), replies, k).0
                },
                None => Step::Done(Err(NmError::NotFound)),
            }
        },
    }
}


// ---------------------------------------------------------------------------
// The WiFi device
// ---------------------------------------------------------------------------

/// The first device from index `i` on whose type is `wifi`.
pub open spec fn first_wifi_device_from(devs: Seq<DeviceView>, i: int) -> Option<int>
    decreases devs.len() - i,
{
    if i < 0 || i >= devs.len() {
        None
    } else if devs[i].device_type == "wifi"@ {
        Some(i)
    } else {
        first_wifi_device_from(devs, i + 1)
    }
}

proof fn lemma_first_wifi_device_bounds(devs: Seq<DeviceView>, i: int)
    ensures
        first_wifi_device_from(devs, i) matches Some(k) ==> 0 <= k < devs.len(),
    decreases devs.len() - i,
{
    if 0 <= i < devs.len() {
        lemma_first_wifi_device_bounds(devs, i + 1);
    }
}

/// Finding the WiFi device from reply `at` on: the name of the first device
/// of type `wifi`.
pub open spec fn wifi_device_at(rs: Seq<Reply>, at: int) -> (StepView<Seq<char>, NmErrorView>, int) {
    let (d, k) = devices_at(rs, at);
    match d {
        StepView::Run(a) => (StepView::Run(a), k),
        StepView::Done(Err(e)) => (StepView::Done(Err(e)), k),
        StepView::Done(Ok(devs)) => match first_wifi_device_from(devs, 0) {
            Some(i) => (StepView::Done(Ok(devs[i].name)), k),
            None => (StepView::Done(Err(NmErrorView::Message("No WiFi device found"@))), k),
        },
    }
}

fn wifi_device_from(rs: &[Reply], at: usize) -> (r: (Step<Vec<char>, NmError>, usize))
    ensures
        match (r.0, wifi_device_at(rs@, at as int).0) {
            (Step::Run(a), StepView::Run(b)) => strs(a@) == b,
            (Step::Done(Ok(a)), StepView::Done(Ok(b))) => a@ == b,
            (Step::Done(Err(a)), StepView::Done(Err(b))) => a.deep_view() == b,
            _ => false,
        },
        r.1 == wifi_device_at(rs@, at as int).1,
{
    let (d, k) = devices_from(rs, at);
    match d {
        Step::Run(a) => (Step::Run(a), k),
        Step::Done(Err(e)) => (Step::Done(Err(e)), k),
        Step::Done(Ok(devs)) => {
            let ghost dv = devs.deep_view();
            let mut i: usize = 0;
            while i < devs.len()
                invariant
                    dv == devs.deep_view(),
                    devices_at(rs@, at as int).0 == StepView::Done(Ok::<Seq<DeviceView>, NmErrorView>(dv)),
                    k == devices_at(rs@, at as int).1,
                    i <= devs@.len(),
                    first_wifi_device_from(dv, 0) == first_wifi_device_from(dv, i as int),
                decreases devs@.len() - i,
            {
                let t = chars_of(devs[i].device_type.as_str());
                assert(dv[i as int] == devs@[i as int].deep_view());
                if eq_str(t.as_slice(), "wifi") {
                    let name = chars_of(devs[i].name.as_str());
                    return (Step::Done(Ok(name)), k);
                }
                i += 1;
            }
            let msg = lit("No WiFi device found");
            (Step::Done(Err(NmError::Message(msg))), k)
        },
    }
}

/// `nmcli device disconnect <device>`
pub open spec fn disconnect_args(device: Seq<char>) -> Seq<Seq<char>> {
    seq!["device"@, "disconnect"@, device]
}

/// Disconnecting the WiFi device.
pub open spec fn disconnect_at(rs: Seq<Reply>) -> StepView<(), NmErrorView> {
    let (d, k) = wifi_device_at(rs, 0);
    match d {
        StepView::Run(a) => StepView::Run(a),
        StepView::Done(Err(e)) => StepView::Done(Err(e)),
        StepView::Done(Ok(name)) => single_at(disconnect_args(name), rs, k).0,
    }
}

/// Disconnects the first WiFi device; fails with "No WiFi device found"
/// where there is none.
pub fn disconnect_wifi(replies: &[Reply]) -> (step: Step<(), NmError>)
    ensures
        step.deep_view() == disconnect_at(replies@),
{
    let (d, k) = wifi_device_from(replies, 0);
    match d {
        Step::Run(a) => Step::Run(a),
        Step::Done(Err(e)) => Step::Done(Err(e)),
        Step::Done(Ok(name)) => {
            let v = vec![lit("device"), lit("disconnect"), string_of(name.as_slice())];
            assert(strs(v@) =~= disconnect_args(name@));
            single_steps(v, replies, k).0
        },
    }
}

// ---------------------------------------------------------------------------
// IPv4 settings
// ---------------------------------------------------------------------------

/// `nmcli -g <field> connection show <uuid>`
pub open spec fn get_args(field: Seq<char>, uuid: Seq<char>) -> Seq<Seq<char>> {
    seq!["-g"@, field, "connection"@, "show"@, uuid]
}

pub(crate) fn args_get(field: &str, uuid: &[char]) -> (s: Vec<String>)
    ensures
        strs(s@) == get_args(field@, uuid@),
{
    let v = vec![lit("-g"), lit(field), lit("connection"), lit("show"), string_of(uuid)];
    assert(strs(v@) =~= get_args(field@, uuid@));
    v
}

/// The MTU that a run prints: none where the run fails or prints no number
/// that fits in 32 bits.
pub open spec fn mtu_of(r: Reply) -> Option<u32> {
    match outcome(r) {
        Ok(v) => match parse_unsigned(v, u32::MAX as nat) {
            Some(n) => Some(n as u32),
            None => None,
        },
        Err(_) => None,
    }
}

fn mtu_from(r: &Reply) -> (m: Option<u32>)
    ensures
        m == mtu_of(*r),
{
    match outcome_of(r) {
        Ok(v) => parse_u32_chars(v.as_slice()),
        Err(_) => None,
    }
}

/// Whether a profile connects by itself: `yes` says it does; where the query
/// fails it is taken to.
pub open spec fn autoconnect_of(r: Reply) -> bool {
    match outcome(r) {
        Ok(v) => v == "yes"@,
        Err(_) => true,
    }
}

/// Reading the IPv4 settings of `uuid`: the method (whose query must
/// succeed), then the addresses, the gateway and the DNS servers (empty
/// where their queries fail; the DNS list with its commas made spaces), the
/// MTU of the WiFi settings or, lacking one, of the ethernet settings, and
/// whether the profile connects by itself.
pub open spec fn read_ip_at(uuid: Seq<char>, rs: Seq<Reply>) -> StepView<IpConfigView, NmErrorView> {
    if rs.len() == 0 {
        StepView::Run(get_args("ipv4.method"@, uuid))
    } else {
        match outcome(rs[0]) {
            Err(e) => StepView::Done(Err(e)),
            Ok(method) => {
                if rs.len() == 1 {
                    StepView::Run(get_args("ipv4.addresses"@, uuid))
                } else if rs.len() == 2 {
                    StepView::Run(get_args("ipv4.gateway"@, uuid))
                } else if rs.len() == 3 {
                    StepView::Run(get_args("ipv4.dns"@, uuid))
                } else if rs.len() == 4 {
                    StepView::Run(get_args("802-11-wireless.mtu"@, uuid))
                } else if mtu_of(rs[4]) is None && rs.len() == 5 {
                    StepView::Run(get_args("ethernet.mtu"@, uuid))
                } else {
                    let k: int = if mtu_of(rs[4]) is Some {
                        5
                    } else {
                        6
                    };
                    let mtu = if mtu_of(rs[4]) is Some {
                        mtu_of(rs[4])
                    } else {
                        mtu_of(rs[5])
                    };
                    if rs.len() <= k {
                        StepView::Run(get_args("connection.autoconnect"@, uuid))
                    } else {
                        StepView::Done(
                            Ok(
                                IpConfigView {
                                    method,
                                    addresses: output_or_empty(rs[1]),
                                    gateway: output_or_empty(rs[2]),
                                    dns: replace_char(output_or_empty(rs[3]), ',', ' '),
                                    mtu,
                                    autoconnect: autoconnect_of(rs[k]),
                                },
                            ),
                        )
                    }
                }
            },
        }
    }
}

/// Reads the IPv4 settings of the profile `uuid`.
pub fn read_ipv4_config(uuid: &str, replies: &[Reply]) -> (step: Step<IpConfig, NmError>)
    ensures
        step.deep_view() == read_ip_at(uuid@, replies@),
{
    let u = chars_of(uuid);
    let n = replies.len();
    if n == 0 {
        return Step::Run(args_get("ipv4.method", u.as_slice()));
    }
    let method = match outcome_of(&replies[0]) {
        Err(e) => {
            return Step::Done(Err(e));
        },
        Ok(m) => m,
    };
    if n == 1 {
        return Step::Run(args_get("ipv4.addresses", u.as_slice()));
    }
    if n == 2 {
        return Step::Run(args_get("ipv4.gateway", u.as_slice()));
    }
    if n == 3 {
        return Step::Run(args_get("ipv4.dns", u.as_slice()));
    }
    if n == 4 {
        return Step::Run(args_get("802-11-wireless.mtu", u.as_slice()));
    }
    let wifi_mtu = mtu_from(&replies[4]);
    if wifi_mtu.is_none() && n == 5 {
        return Step::Run(args_get("ethernet.mtu", u.as_slice()));
    }
    let (k, mtu): (usize, Option<u32>) = match wifi_mtu {
        Some(m) => (5, Some(m)),
        None => (6, mtu_from(&replies[5])),
    };
    if n <= k {
        return Step::Run(args_get("connection.autoconnect", u.as_slice()));
    }
    let addresses = output_or_empty_of(&replies[1]);
    let gateway = output_or_empty_of(&replies[2]);
    let dns_raw = output_or_empty_of(&replies[3]);
    let dns = replace_char_chars(dns_raw.as_slice(), ',', ' ');
    let autoconnect = match outcome_of(&replies[k]) {
        Ok(v) => eq_str(v.as_slice(), "yes"),
        Err(_) => true,
    };
    Step::Done(
        Ok(
            IpConfig {
                method: string_of(method.as_slice()),
                addresses: string_of(addresses.as_slice()),
                gateway: string_of(gateway.as_slice()),
                dns: string_of(dns.as_slice()),
                mtu,
                autoconnect,
            },
        ),
    )
}

/// A setting and its value, where the value is not empty.
pub open spec fn setting_if_set(name: Seq<char>, value: Seq<char>) -> Seq<Seq<char>> {
    if value.len() > 0 {
        seq![name, value]
    } else {
        Seq::<Seq<char>>::empty()
    }
}

/// The IPv4 settings of a `modify` command: the method (`manual`, or else
/// `auto`); for `manual` the addresses, gateway and DNS servers that are not
/// empty (the DNS list with its spaces made commas); for `auto` all three
/// cleared.
pub open spec fn ipv4_settings(method: Seq<char>, addresses: Seq<char>, gateway: Seq<char>, dns: Seq<char>) -> Seq<Seq<char>> {
    if method == "manual"@ {
        seq!["ipv4.method"@, "manual"@] + setting_if_set("ipv4.addresses"@, addresses) + setting_if_set(
            "ipv4.gateway"@,
            gateway,
        ) + setting_if_set("ipv4.dns"@, replace_char(dns, ' ', ','))
    } else {
        seq![
            "ipv4.method"@,
            "auto"@,
            "ipv4.addresses"@,
            Seq::<char>::empty(),
            "ipv4.gateway"@,
            Seq::<char>::empty(),
            "ipv4.dns"@,
            Seq::<char>::empty(),
        ]
    }
}

/// Whether the profile connects by itself, as a setting.
pub open spec fn autoconnect_setting(autoconnect: bool) -> Seq<Seq<char>> {
    seq!["connection.autoconnect"@, if autoconnect { "yes"@ } else { "no"@ }]
}

/// The settings that `nmcli connection modify` gets, the MTU aside.
pub open spec fn modify_args(uuid: Seq<char>, c: IpConfigView) -> Seq<Seq<char>> {
    seq!["connection"@, "modify"@, uuid] + ipv4_settings(c.method, c.addresses, c.gateway, c.dns)
        + autoconnect_setting(c.autoconnect)
}

/// The MTU setting for a profile of type `conn_type`.
pub open spec fn mtu_args(conn_type: Seq<char>, mtu: u32) -> Seq<Seq<char>> {
    seq![if contains(conn_type, "wireless"@) { "802-11-wireless.mtu"@ } else { "ethernet.mtu"@ }, decimal(mtu as nat)]
}

/// Writing the IPv4 settings of `uuid`: with an MTU, the profile's type is
/// asked first (that query must succeed), to name the MTU setting; then one
/// `modify` command carries all the settings.
pub open spec fn write_ip_at(uuid: Seq<char>, c: IpConfigView, rs: Seq<Reply>) -> (StepView<(), NmErrorView>, int) {
    match c.mtu {
        None => single_at(modify_args(uuid, c), rs, 0),
        Some(m) => {
            if rs.len() == 0 {
                (StepView::Run(get_args("connection.type"@, uuid)), 0)
            } else {
                match outcome(rs[0]) {
                    Err(e) => (StepView::Done(Err(e)), 1),
                    Ok(t) => single_at(modify_args(uuid, c) + mtu_args(t, m), rs, 1),
                }
            }
        },
    }
}

pub(crate) fn push_lit(v: &mut Vec<String>, s: &str)
    ensures
        strs(final(v)@) == strs(old(v)@).push(s@),
{
    v.push(lit(s));
    assert(strs(v@) =~= strs(old(v)@).push(s@));
}

pub(crate) fn push_chars(v: &mut Vec<String>, s: &[char])
    ensures
        strs(final(v)@) == strs(old(v)@).push(s@),
{
    v.push(string_of(s));
    assert(strs(v@) =~= strs(old(v)@).push(s@));
}

/// Appends a setting and its value, where the value is not empty.
pub(crate) fn push_setting_if_set(v: &mut Vec<String>, name: &str, value: &[char])
    ensures
        strs(final(v)@) == strs(old(v)@) + setting_if_set(name@, value@),
{
    if value.len() > 0 {
        push_lit(v, name);
        push_chars(v, value);
        assert(strs(v@) =~= strs(old(v)@) + setting_if_set(name@, value@));
    } else {
        assert(strs(v@) =~= strs(old(v)@) + setting_if_set(name@, value@));
    }
}

/// Appends the IPv4 settings of a `modify` command.
pub(crate) fn push_ipv4_settings(v: &mut Vec<String>, method: &String, addresses: &String, gateway: &String, dns: &String)
    ensures
        strs(final(v)@) == strs(old(v)@) + ipv4_settings(method@, addresses@, gateway@, dns@),
{
    let m = chars_of(method.as_str());
    let empty: Vec<char> = Vec::new();
    if eq_str(m.as_slice(), "manual") {
        push_lit(v, "ipv4.method");
        push_lit(v, "manual");
        let ghost a = strs(v@);
        let ac = chars_of(addresses.as_str());
        push_setting_if_set(v, "ipv4.addresses", ac.as_slice());
        let gc = chars_of(gateway.as_str());
        push_setting_if_set(v, "ipv4.gateway", gc.as_slice());
        let dc = chars_of(dns.as_str());
        let d = replace_char_chars(dc.as_slice(), ' ', ',');
        push_setting_if_set(v, "ipv4.dns", d.as_slice());
        assert(strs(v@) =~= strs(old(v)@) + ipv4_settings(method@, addresses@, gateway@, dns@));
    } else {
        push_lit(v, "ipv4.method");
        push_lit(v, "auto");
        push_lit(v, "ipv4.addresses");
        push_chars(v, empty.as_slice());
        push_lit(v, "ipv4.gateway");
        push_chars(v, empty.as_slice());
        push_lit(v, "ipv4.dns");
        push_chars(v, empty.as_slice());
        assert(strs(v@) =~= strs(old(v)@) + ipv4_settings(method@, addresses@, gateway@, dns@));
    }
}

/// Appends whether the profile connects by itself.
pub(crate) fn push_autoconnect(v: &mut Vec<String>, autoconnect: bool)
    ensures
        strs(final(v)@) == strs(old(v)@) + autoconnect_setting(autoconnect),
{
    push_lit(v, "connection.autoconnect");
    if autoconnect {
        push_lit(v, "yes");
    } else {
        push_lit(v, "no");
    }
    assert(strs(v@) =~= strs(old(v)@) + autoconnect_setting(autoconnect));
}

fn args_modify(uuid: &[char], config: &IpConfig) -> (v: Vec<String>)
    ensures
        strs(v@) == modify_args(uuid@, config.deep_view()),
{
    let mut v: Vec<String> = Vec::new();
    push_lit(&mut v, "connection");
    push_lit(&mut v, "modify");
    push_chars(&mut v, uuid);
    push_ipv4_settings(&mut v, &config.method, &config.addresses, &config.gateway, &config.dns);
    push_autoconnect(&mut v, config.autoconnect);
    assert(strs(v@) =~= modify_args(uuid@, config.deep_view()));
    v
}

/// The step of writing the settings, with the replies it used.
pub(crate) fn write_ip_steps(uuid: &[char], config: &IpConfig, rs: &[Reply]) -> (r: (Step<(), NmError>, usize))
    ensures
        r.0.deep_view() == write_ip_at(uuid@, config.deep_view(), rs@).0,
        r.1 == write_ip_at(uuid@, config.deep_view(), rs@).1,
{
    let mut args = args_modify(uuid, config);
    match config.mtu {
        None => single_steps(args, rs, 0),
        Some(m) => {
            if rs.len() == 0 {
                return (Step::Run(args_get("connection.type", uuid)), 0);
            }
            match outcome_of(&rs[0]) {
                Err(e) => (Step::Done(Err(e)), 1),
                Ok(t) => {
                    let ghost base = strs(args@);
                    if contains_str(t.as_slice(), "wireless") {
                        push_lit(&mut args, "802-11-wireless.mtu");
                    } else {
                        push_lit(&mut args, "ethernet.mtu");
                    }
                    let d = decimal_chars(m);
                    push_chars(&mut args, d.as_slice());
                    assert(strs(args@) =~= base + mtu_args(t@, m));
                    single_steps(args, rs, 1)
                },
            }
        },
    }
}

/// Writes the IPv4 settings of the profile `uuid`.
pub fn write_ipv4_config(uuid: &str, config: &IpConfig, replies: &[Reply]) -> (step: Step<(), NmError>)
    ensures
        step.deep_view() == write_ip_at(uuid@, config.deep_view(), replies@).0,
{
    let u = chars_of(uuid);
    write_ip_steps(u.as_slice(), config, replies).0
}


// ---------------------------------------------------------------------------
// The snapshot
// ---------------------------------------------------------------------------

/// `nmcli radio wifi`
pub open spec fn radio_args() -> Seq<Seq<char>> {
    seq!["radio"@, "wifi"@]
}

/// `nmcli -g IP4.GATEWAY device show <device>`
pub open spec fn gateway_args(device: Seq<char>) -> Seq<Seq<char>> {
    seq!["-g"@, "IP4.GATEWAY"@, "device"@, "show"@, device]
}

/// A device that counts as carrying the connection: its state begins with
/// `connected` (as `connected (externally)` does, and `disconnected` and
/// `connecting` do not) and it is not the loopback device.
pub open spec fn is_active_device(d: DeviceView) -> bool {
    "connected"@.is_prefix_of(d.state) && d.device_type != "loopback"@
}

/// The first device from index `i` on that carries the connection.
pub open spec fn first_active_from(devs: Seq<DeviceView>, i: int) -> Option<int>
    decreases devs.len() - i,
{
    if i < 0 || i >= devs.len() {
        None
    } else if is_active_device(devs[i]) {
        Some(i)
    } else {
        first_active_from(devs, i + 1)
    }
}

pub proof fn lemma_first_active_bounds(devs: Seq<DeviceView>, i: int)
    ensures
        first_active_from(devs, i) matches Some(k) ==> i <= k < devs.len() && is_active_device(devs[k])
            && forall|j: int| i <= j < k ==> !is_active_device(#[trigger] devs[j]),
        first_active_from(devs, i) is None ==> forall|j: int| 0 <= i <= j < devs.len() ==> !is_active_device(#[trigger] devs[j]),
    decreases devs.len() - i,
{
    if 0 <= i < devs.len() {
        lemma_first_active_bounds(devs, i + 1);
    }
}

/// The snapshot built from its parts.
pub open spec fn snapshot_of(
    wifi_enabled: bool,
    devs: Seq<DeviceView>,
    conns: Seq<ConnectionView>,
    gateway: Seq<char>,
    nets: Seq<WifiView>,
) -> SnapshotView {
    match first_active_from(devs, 0) {
        Some(i) => SnapshotView {
            wifi_enabled,
            connected: true,
            connection_name: devs[i].connection,
            ip4: devs[i].ip4,
            gateway,
            device: devs[i].name,
            connection_type: devs[i].device_type,
            devices: devs,
            connections: conns,
            wifi_networks: nets,
        },
        None => SnapshotView {
            wifi_enabled,
            connected: false,
            connection_name: Seq::<char>::empty(),
            ip4: Seq::<char>::empty(),
            gateway: Seq::<char>::empty(),
            device: Seq::<char>::empty(),
            connection_type: Seq::<char>::empty(),
            devices: devs,
            connections: conns,
            wifi_networks: nets,
        },
    }
}

/// Taking a snapshot: the radio state (`enabled` turns WiFi on), the
/// devices, the profiles, the gateway of the device that carries the
/// connection (empty where its query fails), and, where WiFi is on and
/// `include_wifi` asks for them, the WiFi networks.
pub open spec fn snapshot_at(include_wifi: bool, rescan_wifi: bool, rs: Seq<Reply>) -> StepView<SnapshotView, NmErrorView> {
    if rs.len() == 0 {
        StepView::Run(radio_args())
    } else {
        match outcome(rs[0]) {
            Err(e) => StepView::Done(Err(e)),
            Ok(radio) => {
                let wifi_enabled = trim(radio) == "enabled"@;
                let (d, k1) = devices_at(rs, 1);
                match d {
                    StepView::Run(a) => StepView::Run(a),
                    StepView::Done(Err(e)) => StepView::Done(Err(e)),
                    StepView::Done(Ok(devs)) => {
                        let (c, k2) = connections_at(rs, k1);
                        match c {
                            StepView::Run(a) => StepView::Run(a),
                            StepView::Done(Err(e)) => StepView::Done(Err(e)),
                            StepView::Done(Ok(conns)) => {
                                let active = first_active_from(devs, 0);
                                if active is Some && k2 >= rs.len() {
                                    StepView::Run(gateway_args(devs[active->0].name))
                                } else {
                                    let gateway = if active is Some {
                                        output_or_empty(rs[k2])
                                    } else {
                                        Seq::<char>::empty()
                                    };
                                    let k3 = if active is Some {
                                        k2 + 1
                                    } else {
                                        k2
                                    };
                                    if wifi_enabled && include_wifi {
                                        match wifi_at(rescan_wifi, saved_keys(conns), rs, k3).0 {
                                            StepView::Run(a) => StepView::Run(a),
                                            StepView::Done(Err(e)) => StepView::Done(Err(e)),
                                            StepView::Done(Ok(nets)) => StepView::Done(
                                                Ok(snapshot_of(wifi_enabled, devs, conns, gateway, nets)),
                                            ),
                                        }
                                    } else {
                                        StepView::Done(
                                            Ok(
                                                snapshot_of(
                                                    wifi_enabled,
                                                    devs,
                                                    conns,
                                                    gateway,
                                                    Seq::<WifiView>::empty(),
                                                ),
                                            ),
                                        )
                                    }
                                }
                            },
                        }
                    },
                }
            },
        }
    }
}

pub(crate) fn find_active(devs: &Vec<DeviceInfo>) -> (r: Option<usize>)
    ensures
        match r {
            Some(k) => first_active_from(devs.deep_view(), 0) == Some(k as int) && k < devs@.len(),
            None => first_active_from(devs.deep_view(), 0) is None,
        },
{
    let ghost dv = devs.deep_view();
    let mut i: usize = 0;
    while i < devs.len()
        invariant
            dv == devs.deep_view(),
            i <= devs@.len(),
            first_active_from(dv, 0) == first_active_from(dv, i as int),
        decreases devs@.len() - i,
    {
        let st = chars_of(devs[i].state.as_str());
        let ty = chars_of(devs[i].device_type.as_str());
        assert(dv[i as int] == devs@[i as int].deep_view());
        if starts_with_str(st.as_slice(), "connected") && !eq_str(ty.as_slice(), "loopback") {
            return Some(i);
        }
        i += 1;
    }
    None
}

fn build_snapshot(
    wifi_enabled: bool,
    devs: Vec<DeviceInfo>,
    conns: Vec<ConnectionInfo>,
    gateway: Vec<char>,
    nets: Vec<WifiNetwork>,
    active: Option<usize>,
) -> (s: NetworkSnapshot)
    requires
        match active {
            Some(k) => first_active_from(devs.deep_view(), 0) == Some(k as int) && k < devs@.len(),
            None => first_active_from(devs.deep_view(), 0) is None,
        },
        active is None ==> gateway@.len() == 0,
    ensures
        s.deep_view() == snapshot_of(wifi_enabled, devs.deep_view(), conns.deep_view(), gateway@, nets.deep_view()),
{
    match active {
        Some(i) => {
            let d = &devs[i];
            let connection_name = d.connection.clone();
            let ip4 = d.ip4.clone();
            let device = d.name.clone();
            let connection_type = d.device_type.clone();
            assert(devs.deep_view()[i as int] == devs@[i as int].deep_view());
            NetworkSnapshot {
                wifi_enabled,
                connected: true,
                connection_name,
                ip4,
                gateway: string_of(gateway.as_slice()),
                device,
                connection_type,
                devices: devs,
                connections: conns,
                wifi_networks: nets,
            }
        },
        None => NetworkSnapshot {
            wifi_enabled,
            connected: false,
            connection_name: String::new(),
            ip4: String::new(),
            gateway: String::new(),
            device: String::new(),
            connection_type: String::new(),
            devices: devs,
            connections: conns,
            wifi_networks: nets,
        },
    }
}

/// Everything the panel shows: the radio state, the devices, the profiles,
/// the device that carries the connection (the first, loopback aside, whose
/// state begins with `connected`) with its addresses, and the WiFi networks where WiFi is on
/// and `include_wifi` asks for them.
pub fn snapshot(include_wifi: bool, rescan_wifi: bool, replies: &[Reply]) -> (step: Step<NetworkSnapshot, NmError>)
    ensures
        step.deep_view() == snapshot_at(include_wifi, rescan_wifi, replies@),
{
    if replies.len() == 0 {
        let v = vec![lit("radio"), lit("wifi")];
        assert(strs(v@) =~= radio_args());
        return Step::Run(v);
    }
    let radio = match outcome_of(&replies[0]) {
        Err(e) => {
            return Step::Done(Err(e));
        },
        Ok(r) => r,
    };
    let t = trim_chars(radio.as_slice());
    let wifi_enabled = eq_str(t.as_slice(), "enabled");
    let (d, k1) = devices_from(replies, 1);
    let devs = match d {
        Step::Run(a) => {
            return Step::Run(a);
        },
        Step::Done(Err(e)) => {
            return Step::Done(Err(e));
        },
        Step::Done(Ok(devs)) => devs,
    };
    let (c, k2) = connections_from(replies, k1);
    let conns = match c {
        Step::Run(a) => {
            return Step::Run(a);
        },
        Step::Done(Err(e)) => {
            return Step::Done(Err(e));
        },
        Step::Done(Ok(conns)) => conns,
    };
    let active = find_active(&devs);
    let (gateway, k3): (Vec<char>, usize) = match active {
        Some(i) => {
            assert(devs.deep_view()[i as int] == devs@[i as int].deep_view());
            if k2 >= replies.len() {
                let name = chars_of(devs[i].name.as_str());
                let v = vec![lit("-g"), lit("IP4.GATEWAY"), lit("device"), lit("show"), string_of(name.as_slice())];
                assert(strs(v@) =~= gateway_args(name@));
                return Step::Run(v);
            }
            (output_or_empty_of(&replies[k2]), k2 + 1)
        },
        None => (Vec::new(), k2),
    };
    let nets = if wifi_enabled && include_wifi {
        let cs = conns.as_slice();
        let keys = saved_keys_of(cs);
        assert(cs.deep_view() =~= conns.deep_view());
        let (w, _k4) = wifi_from(rescan_wifi, &keys, replies, k3);
        match w {
            Step::Run(a) => {
                return Step::Run(a);
            },
            Step::Done(Err(e)) => {
                return Step::Done(Err(e));
            },
            Step::Done(Ok(nets)) => nets,
        }
    } else {
        Vec::new()
    };
    let ghost dv = devs.deep_view();
    let ghost cv = conns.deep_view();
    let ghost nv = nets.deep_view();
    let s = build_snapshot(wifi_enabled, devs, conns, gateway, nets, active);
    proof {
        assert(outcome(replies@[0]) == Ok::<Seq<char>, NmErrorView>(radio@));
        assert(devices_at(replies@, 1).0 == StepView::Done(Ok::<Seq<DeviceView>, NmErrorView>(dv)));
        assert(connections_at(replies@, k1 as int).0 == StepView::Done(Ok::<Seq<ConnectionView>, NmErrorView>(cv)));
        if wifi_enabled && include_wifi {
            assert(wifi_at(rescan_wifi, saved_keys(cv), replies@, k3 as int).0 == StepView::Done(Ok::<Seq<WifiView>, NmErrorView>(nv)));
        } else {
            assert(nv =~= Seq::<WifiView>::empty());
        }
    }
    Step::Done(Ok(s))
}

} // verus!
