//! What holds of every answer that the requests give.
use vstd::prelude::*;
use crate::text::{lemma_filter_all, lemma_filter_partition, decimal, digit_char, digit_value, digits_value, is_digit, parse_unsigned, replace_char, trim, trim_end, trim_start, is_ws, unsigned_body};
use crate::nm::types::{ConnectionView, DeviceView, NmErrorView, SnapshotView, WifiView};
use crate::nm::reply::{outcome, output_or_empty, Reply, StepView};
use crate::text::{ascii_lower, contains, lines, piece, remove_char, splitn};
use crate::nm::cli::{
    connect_at, connect_password_args, connections_at, first_profile, up_args, snapshot_at,
    snapshot_of, first_active_from, is_active_device, lemma_first_active_bounds, dedup_ssid,
    listed_networks, named_network, signal_buckets, signal_is, sort_by_signal, wifi_result,
    autoconnect_setting, ipv4_settings, mtu_args, setting_if_set, write_ip_at, devices_at, read_ip_at,
    wifi_at, saved_keys, first_profile_from, forget_at, disconnect_at, first_wifi_device_from,
};
use crate::nm::types::IpConfigView;

verus! {

broadcast use vstd::seq_lib::group_filter_ensures;

proof fn lemma_buckets_members(s: Seq<WifiView>, v: int)
    requires
        v <= 255,
    ensures
        forall|k: int| 0 <= k < signal_buckets(s, v).len() ==> s.contains(#[trigger] signal_buckets(s, v)[k])
            && signal_buckets(s, v)[k].signal <= v,
    decreases v + 1,
{
    if v >= 0 {
        lemma_buckets_members(s, v - 1);
        let f = s.filter(signal_is(v as u8));
        let rest = signal_buckets(s, v - 1);
        assert(signal_buckets(s, v) == f + rest);
        assert forall|k: int| 0 <= k < signal_buckets(s, v).len() implies s.contains(
            #[trigger] signal_buckets(s, v)[k],
        ) && signal_buckets(s, v)[k].signal <= v by {
            if k < f.len() {
                assert(signal_buckets(s, v)[k] == f[k]);
                s.lemma_filter_pred(signal_is(v as u8), k);
                assert(f.contains(f[k]));
                s.lemma_filter_contains_rev(signal_is(v as u8), f[k]);
            } else {
                assert(signal_buckets(s, v)[k] == rest[k - f.len()]);
            }
        }
    }
}

proof fn lemma_buckets_sorted(s: Seq<WifiView>, v: int)
    requires
        v <= 255,
    ensures
        forall|i: int, j: int|
            0 <= i < j < signal_buckets(s, v).len() ==> #[trigger] signal_buckets(s, v)[i].signal
                >= #[trigger] signal_buckets(s, v)[j].signal,
    decreases v + 1,
{
    if v >= 0 {
        lemma_buckets_sorted(s, v - 1);
        lemma_buckets_members(s, v - 1);
        let f = s.filter(signal_is(v as u8));
        let rest = signal_buckets(s, v - 1);
        let b = signal_buckets(s, v);
        assert(b == f + rest);
        assert forall|i: int, j: int| 0 <= i < j < b.len() implies #[trigger] b[i].signal >= #[trigger] b[j].signal by {
            if j < f.len() {
                assert(b[i] == f[i] && b[j] == f[j]);
                s.lemma_filter_pred(signal_is(v as u8), i);
                s.lemma_filter_pred(signal_is(v as u8), j);
            } else if i < f.len() {
                assert(b[i] == f[i]);
                s.lemma_filter_pred(signal_is(v as u8), i);
                assert(b[j] == rest[j - f.len()]);
                assert(rest[j - f.len()].signal <= v - 1);
            } else {
                assert(b[i] == rest[i - f.len()]);
                assert(b[j] == rest[j - f.len()]);
            }
        }
    }
}

proof fn lemma_dedup_members(s: Seq<WifiView>)
    ensures
        forall|k: int| 0 <= k < dedup_ssid(s).len() ==> s.contains(#[trigger] dedup_ssid(s)[k]),
    decreases s.len(),
{
    if s.len() > 0 {
        lemma_dedup_members(s.drop_last());
        let d = dedup_ssid(s.drop_last());
        assert forall|k: int| 0 <= k < dedup_ssid(s).len() implies s.contains(#[trigger] dedup_ssid(s)[k]) by {
            if k < d.len() {
                assert(dedup_ssid(s)[k] == d[k]);
                let j = choose|j: int| 0 <= j < s.drop_last().len() && s.drop_last()[j] == d[k];
                assert(s[j] == d[k]);
            } else {
                assert(dedup_ssid(s)[k] == s.last());
                assert(s[s.len() - 1] == s.last());
            }
        }
    }
}

proof fn lemma_dedup_sorted(s: Seq<WifiView>)
    requires
        forall|i: int, j: int| 0 <= i < j < s.len() ==> #[trigger] s[i].signal >= #[trigger] s[j].signal,
    ensures
        forall|i: int, j: int|
            0 <= i < j < dedup_ssid(s).len() ==> #[trigger] dedup_ssid(s)[i].signal >= #[trigger] dedup_ssid(
                s,
            )[j].signal,
        forall|i: int| 0 <= i < dedup_ssid(s).len() - 1 ==> #[trigger] dedup_ssid(s)[i].ssid != dedup_ssid(s)[i + 1].ssid,
    decreases s.len(),
{
    if s.len() > 0 {
        let t = s.drop_last();
        assert forall|i: int, j: int| 0 <= i < j < t.len() implies #[trigger] t[i].signal >= #[trigger] t[j].signal by {
            assert(t[i] == s[i] && t[j] == s[j]);
        }
        lemma_dedup_sorted(t);
        lemma_dedup_members(t);
        let d = dedup_ssid(t);
        let r = dedup_ssid(s);
        if !(d.len() > 0 && d.last().ssid == s.last().ssid) {
            assert(r == d.push(s.last()));
            assert forall|i: int, j: int| 0 <= i < j < r.len() implies #[trigger] r[i].signal >= #[trigger] r[j].signal by {
                if j < d.len() {
                    assert(r[i] == d[i] && r[j] == d[j]);
                } else {
                    assert(r[i] == d[i]);
                    assert(t.contains(d[i]));
                    let m = choose|m: int| 0 <= m < t.len() && t[m] == d[i];
                    assert(s[m] == d[i]);
                    assert(r[j] == s[s.len() - 1]);
                }
            }
            assert forall|i: int| 0 <= i < r.len() - 1 implies #[trigger] r[i].ssid != r[i + 1].ssid by {
                if i + 1 < d.len() {
                    assert(r[i] == d[i] && r[i + 1] == d[i + 1]);
                } else {
                    assert(r[i] == d.last());
                }
            }
        }
    }
}

proof fn lemma_listed_named(out: Seq<char>, keys: Seq<Seq<char>>)
    ensures
        forall|k: int| 0 <= k < listed_networks(out, keys).len() ==> #[trigger] listed_networks(out, keys)[k].ssid.len() > 0,
{
    let l = listed_networks(out, keys);
    assert forall|k: int| 0 <= k < l.len() implies #[trigger] l[k].ssid.len() > 0 by {
        assert(named_network()(l[k]));
    }
}

/// The WiFi list that the panel shows is ordered strongest signal first, no
/// network in it has an empty SSID, and no two neighbours share an SSID.
pub proof fn law_wifi_list_order(out: Seq<char>, keys: Seq<Seq<char>>)
    ensures
        forall|i: int, j: int|
            0 <= i < j < wifi_result(out, keys).len() ==> #[trigger] wifi_result(out, keys)[i].signal
                >= #[trigger] wifi_result(out, keys)[j].signal,
        forall|i: int| 0 <= i < wifi_result(out, keys).len() - 1 ==> #[trigger] wifi_result(out, keys)[i].ssid
            != wifi_result(out, keys)[i + 1].ssid,
        forall|k: int| 0 <= k < wifi_result(out, keys).len() ==> #[trigger] wifi_result(out, keys)[k].ssid.len() > 0,
{
    let l = listed_networks(out, keys);
    let s = sort_by_signal(l);
    lemma_buckets_sorted(l, 255);
    lemma_buckets_members(l, 255);
    lemma_dedup_sorted(s);
    lemma_dedup_members(s);
    lemma_listed_named(out, keys);
    let r = wifi_result(out, keys);
    assert forall|k: int| 0 <= k < r.len() implies #[trigger] r[k].ssid.len() > 0 by {
        assert(s.contains(r[k]));
        let m = choose|m: int| 0 <= m < s.len() && s[m] == r[k];
        assert(l.contains(s[m]));
        let p = choose|p: int| 0 <= p < l.len() && l[p] == s[m];
    }
}


/// The networks whose signal is `v` or lower.
spec fn signal_at_most(v: int) -> spec_fn(WifiView) -> bool {
    |n: WifiView| n.signal <= v
}

proof fn lemma_buckets_multiset(s: Seq<WifiView>, v: int)
    requires
        -1 <= v <= 255,
    ensures
        signal_buckets(s, v).to_multiset() == s.filter(signal_at_most(v)).to_multiset(),
    decreases v + 1,
{
    broadcast use vstd::seq_lib::lemma_multiset_commutative;

    if v < 0 {
        let f = s.filter(signal_at_most(v));
        if f.len() > 0 {
            s.lemma_filter_pred(signal_at_most(v), 0);
        }
        assert(f =~= Seq::<WifiView>::empty());
        assert(signal_buckets(s, v) =~= Seq::<WifiView>::empty());
    } else {
        lemma_buckets_multiset(s, v - 1);
        lemma_filter_partition(s, signal_at_most(v), signal_is(v as u8), signal_at_most(v - 1));
        assert(signal_buckets(s, v) == s.filter(signal_is(v as u8)) + signal_buckets(s, v - 1));
    }
}

/// Sorting by signal puts the strongest first and keeps every network: what
/// comes out is what went in, each network as often as before.
pub proof fn law_sort_by_signal(s: Seq<WifiView>)
    ensures
        sort_by_signal(s).to_multiset() == s.to_multiset(),
        forall|i: int, j: int|
            0 <= i < j < sort_by_signal(s).len() ==> #[trigger] sort_by_signal(s)[i].signal
                >= #[trigger] sort_by_signal(s)[j].signal,
{
    lemma_buckets_multiset(s, 255);
    lemma_filter_all(s, signal_at_most(255));
    lemma_buckets_sorted(s, 255);
}

proof fn lemma_digit_char(d: nat)
    requires
        d < 10,
    ensures
        digit_value(digit_char(d)) == d,
        is_digit(digit_char(d)),
{
    let b: u8 = (d + 48) as u8;
    assert(b as int == d + 48);
    assert((b as char) as int == b as int);
}

proof fn lemma_decimal(n: nat)
    ensures
        decimal(n).len() > 0,
        forall|i: int| 0 <= i < decimal(n).len() ==> is_digit(#[trigger] decimal(n)[i]),
        digits_value(decimal(n)) == n,
    decreases n,
{
    lemma_digit_char(n % 10);
    if n < 10 {
        lemma_digit_char(n);
        assert(decimal(n) =~= seq![digit_char(n)]);
        assert(decimal(n).drop_last() =~= Seq::<char>::empty());
        assert(digits_value(Seq::<char>::empty()) == 0);
        assert(decimal(n).last() == digit_char(n));
        assert(digits_value(decimal(n)) == digits_value(decimal(n).drop_last()) * 10 + digit_value(decimal(n).last()));
    } else {
        lemma_decimal(n / 10);
        let d = decimal(n / 10);
        assert(decimal(n) == d.push(digit_char(n % 10)));
        assert(decimal(n).drop_last() =~= d);
        assert(digits_value(decimal(n)) == digits_value(d) * 10 + digit_value(digit_char(n % 10)));
        assert((n / 10) * 10 + n % 10 == n);
        assert forall|i: int| 0 <= i < decimal(n).len() implies is_digit(#[trigger] decimal(n)[i]) by {
            if i < d.len() {
                assert(decimal(n)[i] == d[i]);
            }
        }
    }
}

/// An MTU written as `to_string` writes it reads back as the same number:
/// what the settings editor saves, the settings reader gives back.
pub proof fn law_mtu_round_trip(mtu: u32)
    ensures
        parse_unsigned(decimal(mtu as nat), u32::MAX as nat) == Some(mtu as nat),
{
    lemma_decimal(mtu as nat);
    let d = decimal(mtu as nat);
    assert(is_digit(d[0]));
    assert(unsigned_body(d) == d);
}

/// The DNS list that the editor writes (spaces made commas) reads back (commas
/// made spaces) as it was, where it holds no comma; and a list that
/// NetworkManager stores, without spaces, is written back as it was read.
pub proof fn law_dns_round_trip(dns: Seq<char>)
    ensures
        !dns.contains(',') ==> replace_char(replace_char(dns, ' ', ','), ',', ' ') == dns,
        !dns.contains(' ') ==> replace_char(replace_char(dns, ',', ' '), ' ', ',') == dns,
{
    if !dns.contains(',') {
        assert forall|i: int| 0 <= i < dns.len() implies dns[i] != ',' by {
            if dns[i] == ',' {
                assert(dns.contains(','));
            }
        }
        assert(replace_char(replace_char(dns, ' ', ','), ',', ' ') =~= dns);
    }
    if !dns.contains(' ') {
        assert forall|i: int| 0 <= i < dns.len() implies dns[i] != ' ' by {
            if dns[i] == ' ' {
                assert(dns.contains(' '));
            }
        }
        assert(replace_char(replace_char(dns, ',', ' '), ' ', ',') =~= dns);
    }
}

proof fn lemma_trim_start_shape(s: Seq<char>)
    ensures
        trim_start(s).len() == 0 || !is_ws(trim_start(s)[0]),
        trim_start(s).len() <= s.len(),
        trim_start(s) == s.subrange(s.len() - trim_start(s).len(), s.len() as int),
    decreases s.len(),
{
    if s.len() > 0 && is_ws(s[0]) {
        lemma_trim_start_shape(s.drop_first());
        let t = trim_start(s.drop_first());
        assert(s.drop_first().subrange(s.len() - 1 - t.len(), s.len() - 1) =~= s.subrange(s.len() - t.len(), s.len() as int));
    } else {
        assert(s.subrange(0, s.len() as int) =~= s);
    }
}

proof fn lemma_trim_end_shape(s: Seq<char>)
    ensures
        trim_end(s).len() == 0 || !is_ws(trim_end(s).last()),
        trim_end(s) == s.take(trim_end(s).len() as int),
        trim_end(s).len() <= s.len(),
    decreases s.len(),
{
    if s.len() > 0 && is_ws(s.last()) {
        lemma_trim_end_shape(s.drop_last());
        let t = trim_end(s.drop_last());
        assert(s.drop_last().take(t.len() as int) =~= s.take(t.len() as int));
    } else {
        assert(s.take(s.len() as int) =~= s);
    }
}

proof fn lemma_trim_end_keeps_start(s: Seq<char>)
    requires
        s.len() == 0 || !is_ws(s[0]),
    ensures
        trim_end(s).len() == 0 || !is_ws(trim_end(s)[0]),
{
    lemma_trim_end_shape(s);
    let t = trim_end(s);
    if t.len() > 0 {
        assert(t[0] == s.take(t.len() as int)[0]);
    }
}

/// Trimming twice trims as once: the output of a run, trimmed when read, is
/// unchanged when trimmed again.
pub proof fn law_trim_idempotent(s: Seq<char>)
    ensures
        trim(trim(s)) == trim(s),
{
    lemma_trim_start_shape(s);
    let a = trim_start(s);
    lemma_trim_end_keeps_start(a);
    let t = trim_end(a);
    lemma_trim_end_shape(a);
    assert(trim_start(t) == t);
    lemma_trim_end_shape(t);
    if t.len() > 0 {
        assert(!is_ws(t.last()));
    }
    assert(trim_end(t) == t);
}

/// A failed run whose error output mentions a password, a secret or 802.1X
/// (in any letter case) asks for authentication.
pub proof fn law_auth_required(stdout: String, stderr: String)
    requires
        contains(ascii_lower(trim(stderr@)), "password"@) || contains(ascii_lower(trim(stderr@)), "secret"@)
            || contains(ascii_lower(trim(stderr@)), "802-1x"@),
    ensures
        outcome(Reply::Exited { success: false, stdout, stderr }) == Err::<Seq<char>, NmErrorView>(NmErrorView::AuthRequired),
{
}

/// A saved network reconnects without a password: once the profiles are
/// listed and one has the network's SSID or name, connecting with no
/// password (or an empty one) brings that profile up by its UUID.
pub proof fn law_saved_network_reconnects(ssid: Seq<char>, password: Option<Seq<char>>, rs: Seq<Reply>, conns: Seq<ConnectionView>, i: int)
    requires
        password matches Some(p) ==> p.len() == 0,
        connections_at(rs, 0).0 == StepView::Done(Ok::<Seq<ConnectionView>, NmErrorView>(conns)),
        connections_at(rs, 0).1 == rs.len(),
        first_profile(conns, ssid) == Some(i),
    ensures
        connect_at(ssid, password, rs) == StepView::<(), NmErrorView>::Run(up_args(conns[i].uuid)),
{
}

/// A network given with a password is joined with that password, and a
/// refusal that mentions the password comes back as a request for it.
pub proof fn law_connect_with_password(ssid: Seq<char>, p: Seq<char>, stdout: String, stderr: String)
    requires
        p.len() > 0,
        contains(ascii_lower(trim(stderr@)), "password"@),
    ensures
        connect_at(ssid, Some(p), Seq::<Reply>::empty()) == StepView::<(), NmErrorView>::Run(connect_password_args(ssid, p)),
        connect_at(ssid, Some(p), seq![Reply::Exited { success: false, stdout, stderr }])
            == StepView::<(), NmErrorView>::Done(Err(NmErrorView::AuthRequired)),
{
}

/// The snapshot is connected exactly when some device carries the
/// connection; its connection, addresses and device are those of the first
/// such device.
pub proof fn law_snapshot_connected(
    wifi_enabled: bool,
    devs: Seq<DeviceView>,
    conns: Seq<ConnectionView>,
    gateway: Seq<char>,
    nets: Seq<WifiView>,
)
    ensures
        snapshot_of(wifi_enabled, devs, conns, gateway, nets).connected == exists|i: int|
            0 <= i < devs.len() && is_active_device(#[trigger] devs[i]),
        snapshot_of(wifi_enabled, devs, conns, gateway, nets).connected ==> exists|i: int|
            0 <= i < devs.len() && is_active_device(#[trigger] devs[i]) && snapshot_of(
                wifi_enabled,
                devs,
                conns,
                gateway,
                nets,
            ).device == devs[i].name && snapshot_of(wifi_enabled, devs, conns, gateway, nets).connection_name
                == devs[i].connection,
{
    lemma_first_active_bounds(devs, 0);
    match first_active_from(devs, 0) {
        Some(k) => {
            assert(is_active_device(devs[k]));
        },
        None => {},
    }
}

/// With WiFi off, or not asked for, a snapshot lists no WiFi networks.
pub proof fn law_snapshot_wifi_off(include_wifi: bool, rescan_wifi: bool, rs: Seq<Reply>)
    ensures
        snapshot_at(include_wifi, rescan_wifi, rs) matches StepView::Done(Ok(s)) ==> (!s.wifi_enabled || !include_wifi)
            ==> s.wifi_networks.len() == 0,
{
}


/// Listing the profiles asks, second, for the names of the active profiles;
/// each listed profile is active exactly when its name is one of the lines
/// (any of them) that this query printed, and none is where it failed.
pub proof fn law_connections_active(rs: Seq<Reply>, conns: Seq<ConnectionView>)
    requires
        connections_at(rs, 0).0 == StepView::Done(Ok::<Seq<ConnectionView>, NmErrorView>(conns)),
    ensures
        connections_at(rs.take(1), 0).0 == StepView::<Seq<ConnectionView>, NmErrorView>::Run(
            seq!["-t"@, "-f"@, "NAME"@, "connection"@, "show"@, "--active"@],
        ),
        forall|i: int|
            0 <= i < conns.len() ==> (#[trigger] conns[i]).active == lines(output_or_empty(rs[1])).contains(
                conns[i].name,
            ),
{
    assert(rs.take(1)[0] == rs[0]);
}


/// The lines of a table printed by `nmcli -t`, each split into at most four
/// fields at `:`, those whose third field is `loopback` left out.
pub open spec fn table_rows(out: Seq<char>) -> Seq<Seq<Seq<char>>> {
    lines(out).map_values(|l: Seq<char>| splitn(l, 4, ':')).filter(
        |r: Seq<Seq<char>>| piece(r, 2) != "loopback"@,
    )
}

/// Listing the profiles asks first for the profile table; the profiles are
/// its lines in order, loopback profiles left out, each with the name, UUID,
/// type and device of its line.
pub proof fn law_connections_from_table(rs: Seq<Reply>, conns: Seq<ConnectionView>)
    requires
        connections_at(rs, 0).0 == StepView::Done(Ok::<Seq<ConnectionView>, NmErrorView>(conns)),
    ensures
        connections_at(Seq::<Reply>::empty(), 0).0 == StepView::<Seq<ConnectionView>, NmErrorView>::Run(
            seq!["-t"@, "-f"@, "NAME,UUID,TYPE,DEVICE"@, "connection"@, "show"@],
        ),
        outcome(rs[0]) is Ok,
        conns.len() == table_rows(outcome(rs[0])->Ok_0).len(),
        forall|i: int|
            0 <= i < conns.len() ==> {
                let r = #[trigger] table_rows(outcome(rs[0])->Ok_0)[i];
                &&& conns[i].name == piece(r, 0)
                &&& conns[i].uuid == piece(r, 1)
                &&& conns[i].connection_type == piece(r, 2)
                &&& conns[i].device == piece(r, 3)
            },
{
    let out = outcome(rs[0])->Ok_0;
    assert(crate::nm::cli::connection_rows(out) == table_rows(out)) by {
        assert(crate::text::field_is_not(2, "loopback"@) =~= (|r: Seq<Seq<char>>| piece(r, 2) != "loopback"@));
        assert(crate::text::split_rows(lines(out), 4) =~= lines(out).map_values(|l: Seq<char>| splitn(l, 4, ':')));
    }
}


/// The command `a` sets `key` to `value`: `key` stands in it, with `value`
/// right after it.
pub open spec fn sets(a: Seq<Seq<char>>, key: Seq<char>, value: Seq<char>) -> bool {
    exists|j: int| #![trigger a[j]] 0 <= j && j + 1 < a.len() && a[j] == key && a[j + 1] == value
}

pub proof fn lemma_sets_pair(key: Seq<char>, value: Seq<char>)
    ensures
        sets(seq![key, value], key, value),
{
    let a = seq![key, value];
    assert(a[0] == key && a[1] == value);
}

pub proof fn lemma_sets_left(a: Seq<Seq<char>>, b: Seq<Seq<char>>, key: Seq<char>, value: Seq<char>)
    requires
        sets(a, key, value),
    ensures
        sets(a + b, key, value),
{
    let j = choose|j: int| #![trigger a[j]] 0 <= j && j + 1 < a.len() && a[j] == key && a[j + 1] == value;
    assert((a + b)[j] == a[j] && (a + b)[j + 1] == a[j + 1]);
}

pub proof fn lemma_sets_right(a: Seq<Seq<char>>, b: Seq<Seq<char>>, key: Seq<char>, value: Seq<char>)
    requires
        sets(b, key, value),
    ensures
        sets(a + b, key, value),
{
    let j = choose|j: int| #![trigger b[j]] 0 <= j && j + 1 < b.len() && b[j] == key && b[j + 1] == value;
    assert((a + b)[a.len() + j] == b[j] && (a + b)[a.len() + j + 1] == b[j + 1]);
}

/// A setting that is there in `b` is there in `p + b + q + r + t`.
pub proof fn lemma_sets_within(
    p: Seq<Seq<char>>,
    b: Seq<Seq<char>>,
    q: Seq<Seq<char>>,
    r: Seq<Seq<char>>,
    t: Seq<Seq<char>>,
    key: Seq<char>,
    value: Seq<char>,
)
    requires
        sets(b, key, value),
    ensures
        sets(p + b + q + r + t, key, value),
{
    lemma_sets_right(p, b, key, value);
    lemma_sets_left(p + b, q, key, value);
    lemma_sets_left(p + b + q, r, key, value);
    lemma_sets_left(p + b + q + r, t, key, value);
}

pub proof fn lemma_sets_if_set(key: Seq<char>, value: Seq<char>)
    ensures
        value.len() > 0 ==> sets(setting_if_set(key, value), key, value),
{
    if value.len() > 0 {
        lemma_sets_pair(key, value);
    }
}

/// The IPv4 settings of a `modify` command: for the method `manual`, the
/// method and each of the addresses, gateway and DNS servers (spaces made
/// commas) that is not empty; for any other method, `auto`, with the three
/// cleared.
pub proof fn lemma_ipv4_sets(method: Seq<char>, addresses: Seq<char>, gateway: Seq<char>, dns: Seq<char>)
    ensures
        method == "manual"@ ==> {
            let x = ipv4_settings(method, addresses, gateway, dns);
            &&& sets(x, "ipv4.method"@, "manual"@)
            &&& addresses.len() > 0 ==> sets(x, "ipv4.addresses"@, addresses)
            &&& gateway.len() > 0 ==> sets(x, "ipv4.gateway"@, gateway)
            &&& dns.len() > 0 ==> sets(x, "ipv4.dns"@, replace_char(dns, ' ', ','))
        },
        method != "manual"@ ==> {
            let x = ipv4_settings(method, addresses, gateway, dns);
            &&& sets(x, "ipv4.method"@, "auto"@)
            &&& sets(x, "ipv4.addresses"@, Seq::<char>::empty())
            &&& sets(x, "ipv4.gateway"@, Seq::<char>::empty())
            &&& sets(x, "ipv4.dns"@, Seq::<char>::empty())
        },
{
    let x = ipv4_settings(method, addresses, gateway, dns);
    if method == "manual"@ {
        let m = seq!["ipv4.method"@, "manual"@];
        let sa = setting_if_set("ipv4.addresses"@, addresses);
        let sg = setting_if_set("ipv4.gateway"@, gateway);
        let dv = replace_char(dns, ' ', ',');
        let sd = setting_if_set("ipv4.dns"@, dv);
        let e = Seq::<Seq<char>>::empty();
        assert(x == m + sa + sg + sd);
        assert(replace_char(dns, ' ', ',').len() == dns.len());
        lemma_sets_pair("ipv4.method"@, "manual"@);
        lemma_sets_within(e, m, sa, sg, sd, "ipv4.method"@, "manual"@);
        assert(e + m =~= m);
        lemma_sets_if_set("ipv4.addresses"@, addresses);
        if addresses.len() > 0 {
            lemma_sets_right(m, sa, "ipv4.addresses"@, addresses);
            lemma_sets_within(e, m + sa, sg, sd, e, "ipv4.addresses"@, addresses);
            assert(e + (m + sa) + sg + sd + e =~= x);
        }
        lemma_sets_if_set("ipv4.gateway"@, gateway);
        if gateway.len() > 0 {
            lemma_sets_within(m + sa, sg, sd, e, e, "ipv4.gateway"@, gateway);
            assert(m + sa + sg + sd + e + e =~= x);
        }
        lemma_sets_if_set("ipv4.dns"@, dv);
        if dns.len() > 0 {
            lemma_sets_right(m + sa + sg, sd, "ipv4.dns"@, dv);
        }
    } else {
        assert(x[0] == "ipv4.method"@ && x[1] == "auto"@);
        assert(x[2] == "ipv4.addresses"@ && x[3] == Seq::<char>::empty());
        assert(x[4] == "ipv4.gateway"@ && x[5] == Seq::<char>::empty());
        assert(x[6] == "ipv4.dns"@ && x[7] == Seq::<char>::empty());
    }
}


/// The IPv4 settings stand in any command that carries them.
pub proof fn lemma_ipv4_sets_in(
    p: Seq<Seq<char>>,
    q: Seq<Seq<char>>,
    r: Seq<Seq<char>>,
    t: Seq<Seq<char>>,
    method: Seq<char>,
    addresses: Seq<char>,
    gateway: Seq<char>,
    dns: Seq<char>,
)
    ensures
        method == "manual"@ ==> {
            let a = p + ipv4_settings(method, addresses, gateway, dns) + q + r + t;
            &&& sets(a, "ipv4.method"@, "manual"@)
            &&& addresses.len() > 0 ==> sets(a, "ipv4.addresses"@, addresses)
            &&& gateway.len() > 0 ==> sets(a, "ipv4.gateway"@, gateway)
            &&& dns.len() > 0 ==> sets(a, "ipv4.dns"@, replace_char(dns, ' ', ','))
        },
        method != "manual"@ ==> {
            let a = p + ipv4_settings(method, addresses, gateway, dns) + q + r + t;
            &&& sets(a, "ipv4.method"@, "auto"@)
            &&& sets(a, "ipv4.addresses"@, Seq::<char>::empty())
            &&& sets(a, "ipv4.gateway"@, Seq::<char>::empty())
            &&& sets(a, "ipv4.dns"@, Seq::<char>::empty())
        },
{
    let x = ipv4_settings(method, addresses, gateway, dns);
    lemma_ipv4_sets(method, addresses, gateway, dns);
    if method == "manual"@ {
        lemma_sets_within(p, x, q, r, t, "ipv4.method"@, "manual"@);
        if addresses.len() > 0 {
            lemma_sets_within(p, x, q, r, t, "ipv4.addresses"@, addresses);
        }
        if gateway.len() > 0 {
            lemma_sets_within(p, x, q, r, t, "ipv4.gateway"@, gateway);
        }
        if dns.len() > 0 {
            lemma_sets_within(p, x, q, r, t, "ipv4.dns"@, replace_char(dns, ' ', ','));
        }
    } else {
        lemma_sets_within(p, x, q, r, t, "ipv4.method"@, "auto"@);
        lemma_sets_within(p, x, q, r, t, "ipv4.addresses"@, Seq::<char>::empty());
        lemma_sets_within(p, x, q, r, t, "ipv4.gateway"@, Seq::<char>::empty());
        lemma_sets_within(p, x, q, r, t, "ipv4.dns"@, Seq::<char>::empty());
    }
}

/// The MTU setting for a profile whose type query printed `conn_type`.
pub open spec fn mtu_key(conn_type: Seq<char>) -> Seq<char> {
    if contains(conn_type, "wireless"@) {
        "802-11-wireless.mtu"@
    } else {
        "ethernet.mtu"@
    }
}

/// Writing the IPv4 settings of `uuid` ends in one `modify` command of the
/// profile. It sets the method and, for `manual`, each of the addresses,
/// gateway and DNS servers (spaces made commas) that is not empty, or for
/// any other method `auto` with the three cleared; it sets whether the
/// profile connects by itself; with an MTU, it comes after the query of the
/// profile's type and sets the MTU, as a WiFi setting where that type
/// mentions `wireless`, else as an ethernet one.
pub proof fn law_write_ip_settings(uuid: Seq<char>, c: IpConfigView, rs: Seq<Reply>, a: Seq<Seq<char>>)
    requires
        write_ip_at(uuid, c, rs).0 == StepView::<(), NmErrorView>::Run(a),
        a.len() >= 2,
        a[1] == "modify"@,
    ensures
        a.take(3) == seq!["connection"@, "modify"@, uuid],
        c.method == "manual"@ ==> {
            &&& sets(a, "ipv4.method"@, "manual"@)
            &&& c.addresses.len() > 0 ==> sets(a, "ipv4.addresses"@, c.addresses)
            &&& c.gateway.len() > 0 ==> sets(a, "ipv4.gateway"@, c.gateway)
            &&& c.dns.len() > 0 ==> sets(a, "ipv4.dns"@, replace_char(c.dns, ' ', ','))
        },
        c.method != "manual"@ ==> {
            &&& sets(a, "ipv4.method"@, "auto"@)
            &&& sets(a, "ipv4.addresses"@, Seq::<char>::empty())
            &&& sets(a, "ipv4.gateway"@, Seq::<char>::empty())
            &&& sets(a, "ipv4.dns"@, Seq::<char>::empty())
        },
        sets(a, "connection.autoconnect"@, if c.autoconnect { "yes"@ } else { "no"@ }),
        c.mtu matches Some(m) ==> rs.len() == 1 && outcome(rs[0]) is Ok && sets(
            a,
            mtu_key(outcome(rs[0])->Ok_0),
            decimal(m as nat),
        ),
{
    reveal_strlit("modify");
    reveal_strlit("connection.type");
    let pre = seq!["connection"@, "modify"@, uuid];
    let x4 = ipv4_settings(c.method, c.addresses, c.gateway, c.dns);
    let xa = autoconnect_setting(c.autoconnect);
    let e = Seq::<Seq<char>>::empty();
    let t = match c.mtu {
        Some(m) => mtu_args(outcome(rs[0])->Ok_0, m),
        None => e,
    };
    if c.mtu is Some {
        assert("connection.type"@.len() != "modify"@.len());
    }
    assert(a =~= pre + x4 + xa + t + e);
    lemma_ipv4_sets_in(pre, xa, t, e, c.method, c.addresses, c.gateway, c.dns);
    let av = if c.autoconnect { "yes"@ } else { "no"@ };
    lemma_sets_pair("connection.autoconnect"@, av);
    lemma_sets_within(pre + x4, xa, t, e, e, "connection.autoconnect"@, av);
    assert(pre + x4 + xa + t + e + e =~= a);
    if let Some(m) = c.mtu {
        lemma_sets_pair(mtu_key(outcome(rs[0])->Ok_0), decimal(m as nat));
        lemma_sets_right(pre + x4 + xa, t, mtu_key(outcome(rs[0])->Ok_0), decimal(m as nat));
        assert(pre + x4 + xa + t =~= a);
    }
    assert(a.take(3) =~= pre);
}

/// Writing the IPv4 settings asks for the `modify` command at once where
/// there is no MTU; with an MTU it asks first for the profile's type, and
/// for the `modify` command once that query succeeded.
pub proof fn law_write_ip_asks(uuid: Seq<char>, c: IpConfigView, r: Reply)
    ensures
        c.mtu is None ==> (write_ip_at(uuid, c, Seq::<Reply>::empty()).0 matches StepView::Run(a) && a.len()
            >= 2 && a[1] == "modify"@),
        c.mtu is Some ==> write_ip_at(uuid, c, Seq::<Reply>::empty()).0 == StepView::<(), NmErrorView>::Run(
            seq!["-g"@, "connection.type"@, "connection"@, "show"@, uuid],
        ),
        c.mtu is Some && outcome(r) is Ok ==> (write_ip_at(uuid, c, seq![r]).0 matches StepView::Run(a)
            && a.len() >= 2 && a[1] == "modify"@),
{
}


/// `nmcli -t -f SSID,SIGNAL,SECURITY,IN-USE,BSSID device wifi list`
pub open spec fn wifi_list_command() -> Seq<Seq<char>> {
    seq!["-t"@, "-f"@, "SSID,SIGNAL,SECURITY,IN-USE,BSSID"@, "device"@, "wifi"@, "list"@]
}

/// `nmcli device wifi rescan`
pub open spec fn rescan_command() -> Seq<Seq<char>> {
    seq!["device"@, "wifi"@, "rescan"@]
}

proof fn lemma_devices_asks(rs: Seq<Reply>, at: int)
    ensures
        devices_at(rs, at).0 matches StepView::Run(a) ==> a.len() == 4 || a.len() == 5,
{
}

proof fn lemma_connections_asks(rs: Seq<Reply>, at: int)
    ensures
        connections_at(rs, at).0 matches StepView::Run(a) ==> a.len() == 5 || (a.len() == 6 && a[3]
            == "connection"@),
{
}

/// A snapshot with WiFi networks asks for a rescan exactly where the same
/// snapshot without a rescan asks for the WiFi list: once the radio, the
/// devices, the profiles and (for a connected device) the gateway are read.
pub proof fn law_snapshot_rescans_first(rs: Seq<Reply>)
    ensures
        snapshot_at(true, false, rs) == StepView::<SnapshotView, NmErrorView>::Run(wifi_list_command())
            <==> snapshot_at(true, true, rs) == StepView::<SnapshotView, NmErrorView>::Run(rescan_command()),
{
    reveal_strlit("connection");
    reveal_strlit("device");
    assert("device"@.len() != "connection"@.len());
    let wl = wifi_list_command();
    let rc = rescan_command();
    assert(wl.len() == 6 && rc.len() == 3);
    assert(crate::nm::cli::radio_args().len() == 2);
    if rs.len() > 0 {
        if let Ok(radio) = outcome(rs[0]) {
            lemma_devices_asks(rs, 1);
            let (d, k1) = devices_at(rs, 1);
            if let StepView::Done(Ok(devs)) = d {
                lemma_connections_asks(rs, k1);
                let (c, k2) = connections_at(rs, k1);
                match c {
                    StepView::Run(a) => {
                        assert(a != wl) by {
                            if a.len() == 6 {
                                assert(a[3] != wl[3]);
                            }
                        }
                        assert(a != rc);
                    },
                    StepView::Done(Ok(conns)) => {
                        let active = first_active_from(devs, 0);
                        if active is Some && k2 >= rs.len() {
                            assert(crate::nm::cli::gateway_args(devs[active->0].name).len() == 5);
                        } else {
                            let k3 = if active is Some { k2 + 1 } else { k2 };
                            let keys = crate::nm::cli::saved_keys(conns);
                            assert(wl != rc);
                            assert((crate::nm::cli::wifi_at(false, keys, rs, k3).0 == StepView::<Seq<WifiView>, NmErrorView>::Run(wl))
                                == (k3 >= rs.len()));
                            assert((crate::nm::cli::wifi_at(true, keys, rs, k3).0 == StepView::<Seq<WifiView>, NmErrorView>::Run(rc))
                                == (k3 >= rs.len()));
                        }
                    },
                    _ => {},
                }
            }
        }
    }
    assert("device"@.len() != "connection"@.len());
    assert(wifi_list_command()[3] != "connection"@);
}


proof fn lemma_devices_push(rs: Seq<Reply>, at: int, r: Reply)
    requires
        0 <= at,
        !(devices_at(rs, at).0 is Run),
    ensures
        devices_at(rs.push(r), at) == devices_at(rs, at),
{
    let t = rs.push(r);
    assert(t[at] == rs[at]);
    if let Ok(out) = outcome(rs[at]) {
        let rows = crate::nm::cli::device_rows(out);
        assert(Seq::new(rows.len(), |i: int| crate::nm::cli::device_of(rows[i], t[at + 1 + i])) =~= Seq::new(
            rows.len(),
            |i: int| crate::nm::cli::device_of(rows[i], rs[at + 1 + i]),
        )) by {
            assert forall|i: int| 0 <= i < rows.len() implies #[trigger] t[at + 1 + i] == rs[at + 1 + i] by {}
        }
    }
}

proof fn lemma_connections_push(rs: Seq<Reply>, at: int, r: Reply)
    requires
        0 <= at,
        !(connections_at(rs, at).0 is Run),
    ensures
        connections_at(rs.push(r), at) == connections_at(rs, at),
{
    let t = rs.push(r);
    assert(t[at] == rs[at]);
    if let Ok(out) = outcome(rs[at]) {
        assert(t[at + 1] == rs[at + 1]);
        let active = output_or_empty(rs[at + 1]);
        let rows = crate::nm::cli::connection_rows(out);
        let w = rows.filter(crate::nm::cli::wireless_profile());
        assert(Seq::new(
            rows.len(),
            |i: int| crate::nm::cli::connection_of(rows[i], active, crate::nm::cli::profile_ssid(t, rows, i, at + 2)),
        ) =~= Seq::new(
            rows.len(),
            |i: int| crate::nm::cli::connection_of(rows[i], active, crate::nm::cli::profile_ssid(rs, rows, i, at + 2)),
        )) by {
            assert forall|i: int| 0 <= i < rows.len() implies #[trigger] crate::nm::cli::profile_ssid(t, rows, i, at + 2)
                == crate::nm::cli::profile_ssid(rs, rows, i, at + 2) by {
                crate::text::lemma_filter_take(rows, crate::nm::cli::wireless_profile(), i);
                if crate::nm::cli::wireless_profile()(rows[i]) {
                    crate::text::lemma_filter_take_next(rows, crate::nm::cli::wireless_profile(), i);
                    crate::text::lemma_filter_take(rows, crate::nm::cli::wireless_profile(), i + 1);
                    let n = rows.take(i).filter(crate::nm::cli::wireless_profile()).len();
                    assert(t[at + 2 + n] == rs[at + 2 + n]);
                }
            }
        }
    }
}

/// Once a snapshot asks for a rescan, the next command is the WiFi list,
/// whatever the rescan answered: a failed rescan does not stop the snapshot.
pub proof fn law_snapshot_lists_after_rescan(rs: Seq<Reply>, r: Reply)
    requires
        snapshot_at(true, true, rs) == StepView::<SnapshotView, NmErrorView>::Run(rescan_command()),
    ensures
        snapshot_at(true, true, rs.push(r)) == StepView::<SnapshotView, NmErrorView>::Run(wifi_list_command()),
{
    law_snapshot_rescans_first(rs);
    let t = rs.push(r);
    assert(rescan_command().len() == 3 && crate::nm::cli::radio_args().len() == 2);
    assert(rs.len() > 0);
    assert(t[0] == rs[0]);
    lemma_devices_asks(rs, 1);
    let (d, k1) = devices_at(rs, 1);
    lemma_devices_push(rs, 1, r);
    lemma_connections_asks(rs, k1);
    lemma_connections_push(rs, k1, r);
    let (c, k2) = connections_at(rs, k1);
    if k2 < rs.len() {
        assert(t[k2] == rs[k2]);
    }
}


/// The request for the IPv4 settings of `uuid`, on the replies `rs`, asks
/// next for the setting `field` of the profile.
pub open spec fn read_ip_asks(uuid: Seq<char>, rs: Seq<Reply>, field: Seq<char>) -> bool {
    read_ip_at(uuid, rs) == StepView::<IpConfigView, NmErrorView>::Run(seq!["-g"@, field, "connection"@, "show"@, uuid])
}

/// The MTU that a reply prints, where it prints a number that fits in 32 bits.
pub open spec fn mtu_printed(r: Reply) -> Option<u32> {
    match outcome(r) {
        Ok(v) => match parse_unsigned(v, u32::MAX as nat) {
            Some(n) => Some(n as u32),
            None => None,
        },
        Err(_) => None,
    }
}

/// Reading the IPv4 settings of a profile asks, in this order, for its
/// method, addresses, gateway, DNS servers and WiFi MTU, then, where that
/// gives no number, its ethernet MTU, and last whether it connects by
/// itself. The method was read; each other setting is the output of the
/// query named after it (empty where that query failed, the DNS list with its
/// commas made spaces); autoconnect is on unless its query printed something
/// other than `yes`.
pub proof fn law_read_ip_fields(uuid: Seq<char>, rs: Seq<Reply>, c: IpConfigView)
    requires
        read_ip_at(uuid, rs) == StepView::Done(Ok::<IpConfigView, NmErrorView>(c)),
    ensures
        rs.len() >= 6,
        read_ip_asks(uuid, rs.take(0), "ipv4.method"@),
        read_ip_asks(uuid, rs.take(1), "ipv4.addresses"@),
        read_ip_asks(uuid, rs.take(2), "ipv4.gateway"@),
        read_ip_asks(uuid, rs.take(3), "ipv4.dns"@),
        read_ip_asks(uuid, rs.take(4), "802-11-wireless.mtu"@),
        outcome(rs[0]) == Ok::<Seq<char>, NmErrorView>(c.method),
        c.addresses == output_or_empty(rs[1]),
        c.gateway == output_or_empty(rs[2]),
        c.dns == replace_char(output_or_empty(rs[3]), ',', ' '),
        mtu_printed(rs[4]) is Some ==> c.mtu == mtu_printed(rs[4]) && read_ip_asks(
            uuid,
            rs.take(5),
            "connection.autoconnect"@,
        ) && c.autoconnect == (outcome(rs[5]) matches Ok(v) ==> v == "yes"@),
        mtu_printed(rs[4]) is None ==> rs.len() >= 7 && read_ip_asks(uuid, rs.take(5), "ethernet.mtu"@)
            && c.mtu == mtu_printed(rs[5]) && read_ip_asks(uuid, rs.take(6), "connection.autoconnect"@)
            && c.autoconnect == (outcome(rs[6]) matches Ok(v) ==> v == "yes"@),
{
    assert(rs.take(1)[0] == rs[0]);
    assert(rs.take(2)[0] == rs[0]);
    assert(rs.take(3)[0] == rs[0]);
    assert(rs.take(4)[0] == rs[0]);
    assert(rs.take(5)[0] == rs[0] && rs.take(5)[4] == rs[4]);
    if rs.len() >= 6 {
        assert(rs.take(6)[0] == rs[0] && rs.take(6)[4] == rs[4]);
    }
}


/// The lines of the device table printed by `nmcli -t`, each split into at
/// most four fields at `:`, those whose second field is `loopback` left out.
pub open spec fn device_table_rows(out: Seq<char>) -> Seq<Seq<Seq<char>>> {
    lines(out).map_values(|l: Seq<char>| splitn(l, 4, ':')).filter(
        |r: Seq<Seq<char>>| piece(r, 1) != "loopback"@,
    )
}

/// Listing the devices asks first for the device table; the devices are its
/// lines in order, loopback left out, each with the name, type, state and
/// connection of its line; then it asks, device by device, for the IPv4
/// addresses of that device, and each device's address is the first line
/// that this query printed (empty where it failed).
pub proof fn law_devices_from_table(rs: Seq<Reply>, devs: Seq<DeviceView>)
    requires
        devices_at(rs, 0).0 == StepView::Done(Ok::<Seq<DeviceView>, NmErrorView>(devs)),
    ensures
        devices_at(Seq::<Reply>::empty(), 0).0 == StepView::<Seq<DeviceView>, NmErrorView>::Run(
            seq!["-t"@, "-f"@, "DEVICE,TYPE,STATE,CONNECTION"@, "device"@],
        ),
        outcome(rs[0]) is Ok,
        devs.len() == device_table_rows(outcome(rs[0])->Ok_0).len(),
        rs.len() >= 1 + devs.len(),
        forall|i: int|
            0 <= i < devs.len() ==> {
                let r = #[trigger] device_table_rows(outcome(rs[0])->Ok_0)[i];
                &&& devs[i].name == piece(r, 0)
                &&& devs[i].device_type == piece(r, 1)
                &&& devs[i].state == piece(r, 2)
                &&& devs[i].connection == piece(r, 3)
                &&& devices_at(rs.take(1 + i), 0).0 == StepView::<Seq<DeviceView>, NmErrorView>::Run(
                    seq!["-g"@, "IP4.ADDRESS"@, "device"@, "show"@, devs[i].name],
                )
                &&& devs[i].ip4 == piece(lines(output_or_empty(rs[1 + i])), 0)
            },
{
    let out = outcome(rs[0])->Ok_0;
    assert(crate::nm::cli::device_rows(out) == device_table_rows(out)) by {
        assert(crate::nm::cli::not_loopback_row() =~= (|r: Seq<Seq<char>>| piece(r, 1) != "loopback"@));
        assert(crate::text::split_rows(lines(out), 4) =~= lines(out).map_values(|l: Seq<char>| splitn(l, 4, ':')));
    }
    assert forall|i: int| 0 <= i < devs.len() implies #[trigger] rs.take(1 + i)[0] == rs[0] by {}
    assert forall|i: int| 0 <= i < devs.len() implies devices_at(#[trigger] rs.take(1 + i), 0).0
        == StepView::<Seq<DeviceView>, NmErrorView>::Run(seq!["-g"@, "IP4.ADDRESS"@, "device"@, "show"@, devs[i].name]) by {
        assert(rs.take(1 + i)[0] == rs[0]);
    }
}


/// The network that a line of the WiFi list describes, fields split at `:`:
/// the SSID with its backslashes removed, the signal (0 where it is no number
/// from 0 to 255), the security (`Open` where it is empty or `--`), whether
/// it is in use (`*`), and whether it is saved (its SSID is among `keys`).
pub open spec fn line_describes(line: Seq<char>, keys: Seq<Seq<char>>, n: WifiView) -> bool {
    let p = splitn(line, 5, ':');
    &&& n.ssid == remove_char(piece(p, 0), '\\')
    &&& n.signal == (match parse_unsigned(piece(p, 1), 255) {
        Some(v) => v as u8,
        None => 0u8,
    })
    &&& n.security == (if piece(p, 2).len() == 0 || piece(p, 2) == "--"@ {
        "Open"@
    } else {
        piece(p, 2)
    })
    &&& n.in_use == (piece(p, 3) == "*"@)
    &&& n.saved == keys.contains(n.ssid)
}

/// Some line of the list `out` describes the network `n`.
pub open spec fn listed_in(out: Seq<char>, keys: Seq<Seq<char>>, n: WifiView) -> bool {
    exists|l: int| 0 <= l < lines(out).len() && line_describes(#[trigger] lines(out)[l], keys, n)
}

/// Listing the WiFi networks asks for a rescan first where `rescan` says so,
/// then for the WiFi list; every network listed has a name and is described
/// by a line that the list printed.
pub proof fn law_wifi_list_lines(rescan: bool, keys: Seq<Seq<char>>, rs: Seq<Reply>, nets: Seq<WifiView>)
    requires
        wifi_at(rescan, keys, rs, 0).0 == StepView::Done(Ok::<Seq<WifiView>, NmErrorView>(nets)),
    ensures
        rescan ==> wifi_at(rescan, keys, Seq::<Reply>::empty(), 0).0 == StepView::<Seq<WifiView>, NmErrorView>::Run(
            rescan_command(),
        ),
        ({
            let j: int = if rescan { 1 } else { 0 };
            &&& rs.len() > j
            &&& wifi_at(rescan, keys, rs.take(j), 0).0 == StepView::<Seq<WifiView>, NmErrorView>::Run(
                wifi_list_command(),
            )
            &&& outcome(rs[j]) is Ok
            &&& forall|k: int|
                0 <= k < nets.len() ==> (#[trigger] nets[k]).ssid.len() > 0 && listed_in(
                    outcome(rs[j])->Ok_0,
                    keys,
                    nets[k],
                )
        }),
{
    let j: int = if rescan { 1 } else { 0 };
    assert(rs.len() > j);
    assert(outcome(rs[j]) is Ok);
    let out = outcome(rs[j])->Ok_0;
    assert(nets == crate::nm::cli::wifi_result(out, keys));
    let rows = crate::text::split_rows(lines(out), 5);
    let f = |r: Seq<Seq<char>>| crate::nm::cli::network_of(r, keys);
    let l = listed_networks(out, keys);
    let srt = sort_by_signal(l);
    lemma_buckets_members(l, 255);
    lemma_dedup_members(srt);
    assert forall|k: int| 0 <= k < nets.len() implies (#[trigger] nets[k]).ssid.len() > 0 && listed_in(out, keys, nets[k]) by {
        assert(srt.contains(nets[k]));
        let m = choose|m: int| 0 <= m < srt.len() && srt[m] == nets[k];
        assert(l.contains(srt[m]));
        let q = choose|q: int| 0 <= q < l.len() && l[q] == srt[m];
        rows.map_values(f).lemma_filter_pred(named_network(), q);
        rows.map_values(f).lemma_filter_contains_rev(named_network(), l[q]);
        let i = choose|i: int| 0 <= i < rows.map_values(f).len() && rows.map_values(f)[i] == l[q];
        assert(rows[i] == splitn(lines(out)[i], 5, ':'));
        assert(line_describes(lines(out)[i], keys, nets[k]));
    }
    assert(rs.take(j).len() == j);
    assert(wifi_at(rescan, keys, rs.take(j), 0).0 == StepView::<Seq<WifiView>, NmErrorView>::Run(
        wifi_list_command(),
    ));
}


proof fn lemma_dedup_keeps_ssids(s: Seq<WifiView>)
    ensures
        forall|i: int| 0 <= i < s.len() ==> exists|k: int|
            0 <= k < dedup_ssid(s).len() && (#[trigger] dedup_ssid(s)[k]).ssid == (#[trigger] s[i]).ssid,
    decreases s.len(),
{
    if s.len() > 0 {
        let t = s.drop_last();
        lemma_dedup_keeps_ssids(t);
        let d = dedup_ssid(t);
        let r = dedup_ssid(s);
        assert forall|i: int| 0 <= i < s.len() implies exists|k: int|
            0 <= k < r.len() && (#[trigger] r[k]).ssid == (#[trigger] s[i]).ssid by {
            if i < t.len() {
                assert(t[i] == s[i]);
                let k = choose|k: int| 0 <= k < d.len() && (#[trigger] d[k]).ssid == t[i].ssid;
                assert(r[k] == d[k]);
            } else if d.len() > 0 && d.last().ssid == s.last().ssid {
                assert(r[d.len() - 1] == d.last());
            } else {
                assert(r[d.len() as int] == s.last());
            }
        }
    }
}

/// Every line of the WiFi list that names a network has that network in the
/// list: some listed network carries the SSID of the line.
pub proof fn law_wifi_list_complete(out: Seq<char>, keys: Seq<Seq<char>>, i: int)
    requires
        0 <= i < lines(out).len(),
        remove_char(piece(splitn(lines(out)[i], 5, ':'), 0), '\\').len() > 0,
    ensures
        exists|k: int|
            0 <= k < wifi_result(out, keys).len() && (#[trigger] wifi_result(out, keys)[k]).ssid == remove_char(
                piece(splitn(lines(out)[i], 5, ':'), 0),
                '\\',
            ),
{
    let rows = crate::text::split_rows(lines(out), 5);
    let f = |r: Seq<Seq<char>>| crate::nm::cli::network_of(r, keys);
    let m = rows.map_values(f);
    let l = listed_networks(out, keys);
    let x = m[i];
    assert(rows[i] == splitn(lines(out)[i], 5, ':'));
    assert(named_network()(x));
    m.lemma_filter_contains(named_network(), i);
    let q = choose|q: int| 0 <= q < l.len() && l[q] == x;
    let srt = sort_by_signal(l);
    law_sort_by_signal(l);
    broadcast use vstd::seq_lib::group_to_multiset_ensures;
    assert(l.to_multiset().count(x) > 0);
    assert(srt.contains(x));
    let p = choose|p: int| 0 <= p < srt.len() && srt[p] == x;
    lemma_dedup_keeps_ssids(srt);
    assert(x.ssid == remove_char(piece(splitn(lines(out)[i], 5, ':'), 0), '\\'));
    let d = dedup_ssid(srt);
    assert(d == wifi_result(out, keys));
    let k = choose|k: int| 0 <= k < d.len() && (#[trigger] d[k]).ssid == srt[p].ssid;
    assert(wifi_result(out, keys)[k].ssid == x.ssid);
}

/// A name counts as saved exactly when some profile of a WiFi type (one that
/// mentions `wireless`, or `wifi`) has it as its SSID, or as its name where
/// it has no SSID.
pub proof fn law_saved_keys(conns: Seq<ConnectionView>, k: Seq<char>)
    ensures
        saved_keys(conns).contains(k) <==> exists|i: int|
            0 <= i < conns.len() && (contains((#[trigger] conns[i]).connection_type, "wireless"@)
                || conns[i].connection_type == "wifi"@) && k == (if conns[i].ssid.len() == 0 {
                conns[i].name
            } else {
                conns[i].ssid
            }),
{
    let p = |c: ConnectionView| crate::nm::cli::is_wifi_type(c.connection_type);
    let g = |c: ConnectionView| crate::nm::cli::saved_key(c);
    let w = conns.filter(p);
    if saved_keys(conns).contains(k) {
        let j = choose|j: int| 0 <= j < w.map_values(g).len() && w.map_values(g)[j] == k;
        conns.lemma_filter_pred(p, j);
        assert(w.contains(w[j]));
        conns.lemma_filter_contains_rev(p, w[j]);
        let i = choose|i: int| 0 <= i < conns.len() && conns[i] == w[j];
        assert(p(conns[i]));
    }
    if exists|i: int|
        0 <= i < conns.len() && (contains((#[trigger] conns[i]).connection_type, "wireless"@)
            || conns[i].connection_type == "wifi"@) && k == (if conns[i].ssid.len() == 0 {
            conns[i].name
        } else {
            conns[i].ssid
        }) {
        let i = choose|i: int|
            0 <= i < conns.len() && (contains((#[trigger] conns[i]).connection_type, "wireless"@)
                || conns[i].connection_type == "wifi"@) && k == (if conns[i].ssid.len() == 0 {
                conns[i].name
            } else {
                conns[i].ssid
            });
        assert(p(conns[i]));
        conns.lemma_filter_contains(p, i);
        let j = choose|j: int| 0 <= j < w.len() && w[j] == conns[i];
        assert(w.map_values(g)[j] == k);
    }
}


proof fn lemma_first_profile_from(conns: Seq<ConnectionView>, ssid: Seq<char>, i: int)
    requires
        0 <= i,
    ensures
        first_profile_from(conns, ssid, i) matches Some(k) ==> i <= k < conns.len() && (conns[k].ssid == ssid
            || conns[k].name == ssid) && forall|j: int|
            i <= j < k ==> !((#[trigger] conns[j]).ssid == ssid || conns[j].name == ssid),
        first_profile_from(conns, ssid, i) is None ==> forall|j: int|
            i <= j < conns.len() ==> !((#[trigger] conns[j]).ssid == ssid || conns[j].name == ssid),
    decreases conns.len() - i,
{
    if i < conns.len() {
        lemma_first_profile_from(conns, ssid, i + 1);
    }
}

/// The profile of a network: its SSID or its name is the network's name.
pub open spec fn profile_of(c: ConnectionView, ssid: Seq<char>) -> bool {
    c.ssid == ssid || c.name == ssid
}

/// The first profile of the network `ssid` is the one at `i`.
pub open spec fn first_profile_at(conns: Seq<ConnectionView>, ssid: Seq<char>, i: int) -> bool {
    &&& 0 <= i < conns.len()
    &&& profile_of(conns[i], ssid)
    &&& forall|j: int| 0 <= j < i ==> !profile_of(#[trigger] conns[j], ssid)
}

/// Once the profiles are listed, forgetting a network deletes, by its UUID,
/// the first profile whose SSID or name is the network's name; where there
/// is none, it fails with `NotFound` and runs nothing more.
pub proof fn law_forget_first_profile(ssid: Seq<char>, rs: Seq<Reply>, conns: Seq<ConnectionView>)
    requires
        connections_at(rs, 0) == (StepView::Done(Ok::<Seq<ConnectionView>, NmErrorView>(conns)), rs.len() as int),
    ensures
        forall|i: int| #[trigger] first_profile_at(conns, ssid, i) ==> forget_at(ssid, rs) == StepView::<(), NmErrorView>::Run(
            seq!["connection"@, "delete"@, conns[i].uuid],
        ),
        (forall|j: int| 0 <= j < conns.len() ==> !profile_of(#[trigger] conns[j], ssid)) ==> forget_at(ssid, rs)
            == StepView::<(), NmErrorView>::Done(Err(NmErrorView::NotFound)),
{
    lemma_first_profile_from(conns, ssid, 0);
    assert forall|i: int| #[trigger] first_profile_at(conns, ssid, i) implies forget_at(ssid, rs)
        == StepView::<(), NmErrorView>::Run(seq!["connection"@, "delete"@, conns[i].uuid]) by {
        if let Some(k) = first_profile_from(conns, ssid, 0) {
            if k < i {
                assert(!profile_of(conns[k], ssid));
            }
            if i < k {
                assert(!(conns[i].ssid == ssid || conns[i].name == ssid));
            }
        } else {
            assert(!(conns[i].ssid == ssid || conns[i].name == ssid));
        }
    }
    if forall|j: int| 0 <= j < conns.len() ==> !profile_of(#[trigger] conns[j], ssid) {
        if let Some(k) = first_profile_from(conns, ssid, 0) {
            assert(!profile_of(conns[k], ssid));
        }
    }
}

/// Once the profiles are listed, connecting without a password (or with an
/// empty one) brings up, by its UUID, the first profile whose SSID or name is
/// the network's name; where there is none, it joins the network by name.
pub proof fn law_connect_without_password(
    ssid: Seq<char>,
    password: Option<Seq<char>>,
    rs: Seq<Reply>,
    conns: Seq<ConnectionView>,
)
    requires
        password matches Some(p) ==> p.len() == 0,
        connections_at(rs, 0) == (StepView::Done(Ok::<Seq<ConnectionView>, NmErrorView>(conns)), rs.len() as int),
    ensures
        forall|i: int| #[trigger] first_profile_at(conns, ssid, i) ==> connect_at(ssid, password, rs) == StepView::<
            (),
            NmErrorView,
        >::Run(seq!["connection"@, "up"@, conns[i].uuid]),
        (forall|j: int| 0 <= j < conns.len() ==> !profile_of(#[trigger] conns[j], ssid)) ==> connect_at(
            ssid,
            password,
            rs,
        ) == StepView::<(), NmErrorView>::Run(seq!["device"@, "wifi"@, "connect"@, ssid]),
{
    lemma_first_profile_from(conns, ssid, 0);
    assert forall|i: int| #[trigger] first_profile_at(conns, ssid, i) implies connect_at(ssid, password, rs)
        == StepView::<(), NmErrorView>::Run(seq!["connection"@, "up"@, conns[i].uuid]) by {
        if let Some(k) = first_profile_from(conns, ssid, 0) {
            if k < i {
                assert(!profile_of(conns[k], ssid));
            }
            if i < k {
                assert(!(conns[i].ssid == ssid || conns[i].name == ssid));
            }
        } else {
            assert(!(conns[i].ssid == ssid || conns[i].name == ssid));
        }
    }
    if forall|j: int| 0 <= j < conns.len() ==> !profile_of(#[trigger] conns[j], ssid) {
        if let Some(k) = first_profile_from(conns, ssid, 0) {
            assert(!profile_of(conns[k], ssid));
        }
    }
}

proof fn lemma_first_wifi_device_from(devs: Seq<DeviceView>, i: int)
    requires
        0 <= i,
    ensures
        first_wifi_device_from(devs, i) matches Some(k) ==> i <= k < devs.len() && devs[k].device_type == "wifi"@
            && forall|j: int| i <= j < k ==> (#[trigger] devs[j]).device_type != "wifi"@,
        first_wifi_device_from(devs, i) is None ==> forall|j: int|
            i <= j < devs.len() ==> (#[trigger] devs[j]).device_type != "wifi"@,
    decreases devs.len() - i,
{
    if i < devs.len() {
        lemma_first_wifi_device_from(devs, i + 1);
    }
}

/// Once the devices are listed, disconnecting WiFi disconnects the first
/// device of type `wifi`; where there is none, it fails with "No WiFi device
/// found" and runs nothing more.
pub proof fn law_disconnect_first_wifi_device(rs: Seq<Reply>, devs: Seq<DeviceView>)
    requires
        devices_at(rs, 0) == (StepView::Done(Ok::<Seq<DeviceView>, NmErrorView>(devs)), rs.len() as int),
    ensures
        forall|i: int|
            0 <= i < devs.len() && (#[trigger] devs[i]).device_type == "wifi"@ && (forall|j: int|
                0 <= j < i ==> devs[j].device_type != "wifi"@) ==> disconnect_at(rs) == StepView::<(), NmErrorView>::Run(
                seq!["device"@, "disconnect"@, devs[i].name],
            ),
        (forall|j: int| 0 <= j < devs.len() ==> (#[trigger] devs[j]).device_type != "wifi"@) ==> disconnect_at(rs)
            == StepView::<(), NmErrorView>::Done(Err(NmErrorView::Message("No WiFi device found"@))),
{
    lemma_first_wifi_device_from(devs, 0);
    assert forall|i: int|
        0 <= i < devs.len() && (#[trigger] devs[i]).device_type == "wifi"@ && (forall|j: int|
            0 <= j < i ==> devs[j].device_type != "wifi"@) implies disconnect_at(rs) == StepView::<(), NmErrorView>::Run(
        seq!["device"@, "disconnect"@, devs[i].name],
    ) by {
        if let Some(k) = first_wifi_device_from(devs, 0) {
            if k < i {
                assert(devs[k].device_type != "wifi"@);
            }
            if i < k {
                assert(devs[i].device_type != "wifi"@);
            }
        }
    }
}


/// A device that carries the connection: its state begins with `connected`
/// (as `connected (externally)` does, and `disconnected` and `connecting` do
/// not) and it is not the loopback device.
pub open spec fn carries_the_connection(d: DeviceView) -> bool {
    "connected"@.is_prefix_of(d.state) && d.device_type != "loopback"@
}

/// A snapshot starts by reading the radio (WiFi is on exactly when it printed
/// `enabled`), then lists the devices and the profiles, which it holds as
/// listed. It is connected exactly when some device carries the connection;
/// then its connection, address, device and type are those of the first such
/// device and its gateway is what the next query printed (empty where it
/// failed); else they are all empty.
pub proof fn law_snapshot_parts(include_wifi: bool, rescan_wifi: bool, rs: Seq<Reply>, s: SnapshotView)
    requires
        snapshot_at(include_wifi, rescan_wifi, rs) == StepView::Done(Ok::<SnapshotView, NmErrorView>(s)),
    ensures
        snapshot_at(include_wifi, rescan_wifi, Seq::<Reply>::empty()) == StepView::<SnapshotView, NmErrorView>::Run(
            seq!["radio"@, "wifi"@],
        ),
        outcome(rs[0]) is Ok,
        s.wifi_enabled == (trim(outcome(rs[0])->Ok_0) == "enabled"@),
        devices_at(rs, 1).0 == StepView::Done(Ok::<Seq<DeviceView>, NmErrorView>(s.devices)),
        connections_at(rs, devices_at(rs, 1).1).0 == StepView::Done(
            Ok::<Seq<ConnectionView>, NmErrorView>(s.connections),
        ),
        s.connected == exists|i: int| 0 <= i < s.devices.len() && carries_the_connection(#[trigger] s.devices[i]),
        forall|i: int|
            0 <= i < s.devices.len() && carries_the_connection(#[trigger] s.devices[i]) && (forall|j: int|
                0 <= j < i ==> !carries_the_connection(s.devices[j])) ==> {
                let k2 = connections_at(rs, devices_at(rs, 1).1).1;
                &&& s.connection_name == s.devices[i].connection
                &&& s.ip4 == s.devices[i].ip4
                &&& s.device == s.devices[i].name
                &&& s.connection_type == s.devices[i].device_type
                &&& 0 <= k2 < rs.len()
                &&& s.gateway == output_or_empty(rs[k2])
            },
        !s.connected ==> s.connection_name.len() == 0 && s.ip4.len() == 0 && s.device.len() == 0
            && s.connection_type.len() == 0 && s.gateway.len() == 0,
{
    let (d, k1) = devices_at(rs, 1);
    if let StepView::Done(Ok(devs)) = d {
        lemma_first_active_bounds(devs, 0);
        assert forall|x: DeviceView| is_active_device(x) == carries_the_connection(x) by {}
        if let Some(i) = first_active_from(devs, 0) {
            assert(carries_the_connection(devs[i]));
            assert forall|i2: int|
                0 <= i2 < devs.len() && carries_the_connection(#[trigger] devs[i2]) && (forall|j: int|
                    0 <= j < i2 ==> !carries_the_connection(devs[j])) implies i2 == i by {
                if i2 < i {
                    assert(!is_active_device(devs[i2]));
                }
                if i < i2 {
                    assert(!carries_the_connection(devs[i]));
                }
            }
            let (c, k2) = connections_at(rs, k1);
            assert(k2 >= 0) by {
                assert(k1 >= 1);
            }
        }
    }
}


/// How a run of `nmcli` reads: a run that exited with success gives its
/// output, trimmed; a failed run whose error output (trimmed, any letter
/// case) mentions a secret, a password or 802-1x asks for authentication;
/// another failed run gives its trimmed error output, or, where that is
/// empty, "nmcli failed: " and its trimmed output; a run that could not start
/// gives "Failed to run nmcli: " and the system's reason.
pub proof fn law_run_outcome(success: bool, stdout: String, stderr: String, reason: String)
    ensures
        success ==> outcome(Reply::Exited { success, stdout, stderr }) == Ok::<Seq<char>, NmErrorView>(trim(stdout@)),
        !success && (contains(ascii_lower(trim(stderr@)), "secret"@) || contains(ascii_lower(trim(stderr@)), "password"@)
            || contains(ascii_lower(trim(stderr@)), "802-1x"@)) ==> outcome(Reply::Exited { success, stdout, stderr })
            == Err::<Seq<char>, NmErrorView>(NmErrorView::AuthRequired),
        !success && !(contains(ascii_lower(trim(stderr@)), "secret"@) || contains(ascii_lower(trim(stderr@)), "password"@)
            || contains(ascii_lower(trim(stderr@)), "802-1x"@)) && trim(stderr@).len() > 0 ==> outcome(
            Reply::Exited { success, stdout, stderr },
        ) == Err::<Seq<char>, NmErrorView>(NmErrorView::Message(trim(stderr@))),
        !success && trim(stderr@).len() == 0 ==> outcome(Reply::Exited { success, stdout, stderr })
            == Err::<Seq<char>, NmErrorView>(NmErrorView::Message("nmcli failed: "@ + trim(stdout@))),
        outcome(Reply::SpawnFailed(reason)) == Err::<Seq<char>, NmErrorView>(
            NmErrorView::Message("Failed to run nmcli: "@ + reason@),
        ),
{
    if trim(stderr@).len() == 0 {
        let l = ascii_lower(trim(stderr@));
        assert(l.len() == 0);
        assert(!contains(l, "secret"@) && !contains(l, "password"@) && !contains(l, "802-1x"@)) by {
            reveal_strlit("secret");
            reveal_strlit("password");
            reveal_strlit("802-1x");
        }
    }
}


/// Listing the profiles reads, after the table and the active names, one
/// SSID query per WiFi profile (of type `802-11-wireless` or `wifi`), in the
/// order of the table; each WiFi profile's SSID is what the query for its
/// UUID printed (empty where it failed), and other profiles have none.
pub proof fn law_connections_ssids(rs: Seq<Reply>, conns: Seq<ConnectionView>)
    requires
        connections_at(rs, 0).0 == StepView::Done(Ok::<Seq<ConnectionView>, NmErrorView>(conns)),
    ensures
        forall|i: int|
            0 <= i < conns.len() && !((#[trigger] conns[i]).connection_type == "802-11-wireless"@
                || conns[i].connection_type == "wifi"@) ==> conns[i].ssid.len() == 0,
        forall|i: int|
            0 <= i < conns.len() && ((#[trigger] conns[i]).connection_type == "802-11-wireless"@
                || conns[i].connection_type == "wifi"@) ==> exists|m: int|
                2 <= m < rs.len() && connections_at(#[trigger] rs.take(m), 0).0 == StepView::<
                    Seq<ConnectionView>,
                    NmErrorView,
                >::Run(seq!["-g"@, "802-11-wireless.ssid"@, "connection"@, "show"@, conns[i].uuid])
                    && conns[i].ssid == output_or_empty(rs[m]),
{
    let out = outcome(rs[0])->Ok_0;
    let rows = crate::nm::cli::connection_rows(out);
    let p = crate::nm::cli::wireless_profile();
    let w = rows.filter(p);
    assert forall|i: int|
        0 <= i < conns.len() && ((#[trigger] conns[i]).connection_type == "802-11-wireless"@
            || conns[i].connection_type == "wifi"@) implies exists|m: int|
            2 <= m < rs.len() && connections_at(#[trigger] rs.take(m), 0).0 == StepView::<
                Seq<ConnectionView>,
                NmErrorView,
            >::Run(seq!["-g"@, "802-11-wireless.ssid"@, "connection"@, "show"@, conns[i].uuid])
                && conns[i].ssid == output_or_empty(rs[m]) by {
        let n: int = rows.take(i).filter(p).len() as int;
        assert(p(rows[i]));
        crate::text::lemma_filter_take_next(rows, p, i);
        crate::text::lemma_filter_take(rows, p, i + 1);
        assert(rows.take(i + 1).filter(p) == rows.take(i).filter(p).push(rows[i]));
        assert(w.take(n + 1)[n] == rows[i]);
        assert(w[n] == rows[i]);
        let m: int = 2 + n;
        let t = rs.take(m);
        assert(t[0] == rs[0] && t[1] == rs[1]);
        assert(connections_at(t, 0).0 == StepView::<Seq<ConnectionView>, NmErrorView>::Run(
            seq!["-g"@, "802-11-wireless.ssid"@, "connection"@, "show"@, conns[i].uuid],
        ));
    }
}


/// The requests of one command: switching the radio runs `radio wifi on`
/// or `radio wifi off` as asked; bringing a profile up or down runs
/// `connection up` or `connection down` with its UUID. Each succeeds exactly
/// when its run does, and fails with what the run reports.
pub proof fn law_one_command_requests(enabled: bool, uuid: Seq<char>, r: Reply)
    ensures
        crate::nm::cli::radio_set_args(enabled) == seq!["radio"@, "wifi"@, if enabled { "on"@ } else { "off"@ }],
        up_args(uuid) == seq!["connection"@, "up"@, uuid],
        crate::nm::cli::down_args(uuid) == seq!["connection"@, "down"@, uuid],
        forall|a: Seq<Seq<char>>|
            #![trigger crate::nm::cli::single_at(a, seq![r], 0)]
            crate::nm::cli::single_at(a, Seq::<Reply>::empty(), 0).0 == StepView::<(), NmErrorView>::Run(a)
                && crate::nm::cli::single_at(a, seq![r], 0).0 == match outcome(r) {
                Ok(_) => StepView::<(), NmErrorView>::Done(Ok(())),
                Err(e) => StepView::<(), NmErrorView>::Done(Err(e)),
            },
{
}


proof fn lemma_devices_take(rs: Seq<Reply>, at: int, n: int)
    requires
        0 <= at,
        !(devices_at(rs, at).0 is Run),
        devices_at(rs, at).1 <= n <= rs.len(),
    ensures
        devices_at(rs.take(n), at) == devices_at(rs, at),
{
    let t = rs.take(n);
    assert(t[at] == rs[at]);
    if let Ok(out) = outcome(rs[at]) {
        let rows = crate::nm::cli::device_rows(out);
        assert(Seq::new(rows.len(), |i: int| crate::nm::cli::device_of(rows[i], t[at + 1 + i])) =~= Seq::new(
            rows.len(),
            |i: int| crate::nm::cli::device_of(rows[i], rs[at + 1 + i]),
        )) by {
            assert forall|i: int| 0 <= i < rows.len() implies #[trigger] t[at + 1 + i] == rs[at + 1 + i] by {}
        }
    }
}

proof fn lemma_connections_take(rs: Seq<Reply>, at: int, n: int)
    requires
        0 <= at,
        !(connections_at(rs, at).0 is Run),
        connections_at(rs, at).1 <= n <= rs.len(),
    ensures
        connections_at(rs.take(n), at) == connections_at(rs, at),
{
    let t = rs.take(n);
    assert(t[at] == rs[at]);
    if let Ok(out) = outcome(rs[at]) {
        assert(t[at + 1] == rs[at + 1]);
        let active = output_or_empty(rs[at + 1]);
        let rows = crate::nm::cli::connection_rows(out);
        let w = rows.filter(crate::nm::cli::wireless_profile());
        assert(Seq::new(
            rows.len(),
            |i: int| crate::nm::cli::connection_of(rows[i], active, crate::nm::cli::profile_ssid(t, rows, i, at + 2)),
        ) =~= Seq::new(
            rows.len(),
            |i: int| crate::nm::cli::connection_of(rows[i], active, crate::nm::cli::profile_ssid(rs, rows, i, at + 2)),
        )) by {
            assert forall|i: int| 0 <= i < rows.len() implies #[trigger] crate::nm::cli::profile_ssid(t, rows, i, at + 2)
                == crate::nm::cli::profile_ssid(rs, rows, i, at + 2) by {
                crate::text::lemma_filter_take(rows, crate::nm::cli::wireless_profile(), i);
                if crate::nm::cli::wireless_profile()(rows[i]) {
                    crate::text::lemma_filter_take_next(rows, crate::nm::cli::wireless_profile(), i);
                    crate::text::lemma_filter_take(rows, crate::nm::cli::wireless_profile(), i + 1);
                    let m = rows.take(i).filter(crate::nm::cli::wireless_profile()).len();
                    assert(t[at + 2 + m] == rs[at + 2 + m]);
                }
            }
        }
    }
}

/// Where a device carries the connection, the snapshot asks, once the
/// devices and profiles are read, for the gateway of the first such device:
/// `-g IP4.GATEWAY device show <device>`.
pub proof fn law_snapshot_gateway_query(include_wifi: bool, rescan_wifi: bool, rs: Seq<Reply>, s: SnapshotView)
    requires
        snapshot_at(include_wifi, rescan_wifi, rs) == StepView::Done(Ok::<SnapshotView, NmErrorView>(s)),
        s.connected,
    ensures
        snapshot_at(include_wifi, rescan_wifi, rs.take(connections_at(rs, devices_at(rs, 1).1).1))
            == StepView::<SnapshotView, NmErrorView>::Run(seq!["-g"@, "IP4.GATEWAY"@, "device"@, "show"@, s.device]),
{
    let (d, k1) = devices_at(rs, 1);
    let (c, k2) = connections_at(rs, k1);
    let t = rs.take(k2);
    assert(k1 >= 1);
    assert(k2 >= k1);
    lemma_devices_take(rs, 1, k2);
    lemma_connections_take(rs, k1, k2);
    assert(t[0] == rs[0]);
}


/// Connecting with a password that is not empty runs one command, `device
/// wifi connect <ssid> password <password>`, and nothing before it; the
/// request succeeds exactly when that run does.
pub proof fn law_connect_password_command(ssid: Seq<char>, p: Seq<char>, r: Reply)
    requires
        p.len() > 0,
    ensures
        connect_at(ssid, Some(p), Seq::<Reply>::empty()) == StepView::<(), NmErrorView>::Run(
            seq!["device"@, "wifi"@, "connect"@, ssid, "password"@, p],
        ),
        connect_at(ssid, Some(p), seq![r]) == match outcome(r) {
            Ok(_) => StepView::<(), NmErrorView>::Done(Ok(())),
            Err(e) => StepView::<(), NmErrorView>::Done(Err(e)),
        },
{
}


proof fn lemma_wifi_result_saved(out: Seq<char>, keys: Seq<Seq<char>>)
    ensures
        forall|k: int|
            0 <= k < wifi_result(out, keys).len() ==> (#[trigger] wifi_result(out, keys)[k]).saved == keys.contains(
                wifi_result(out, keys)[k].ssid,
            ),
{
    let rows = crate::text::split_rows(lines(out), 5);
    let f = |r: Seq<Seq<char>>| crate::nm::cli::network_of(r, keys);
    let l = listed_networks(out, keys);
    let srt = sort_by_signal(l);
    lemma_buckets_members(l, 255);
    lemma_dedup_members(srt);
    let r = wifi_result(out, keys);
    assert forall|k: int| 0 <= k < r.len() implies (#[trigger] r[k]).saved == keys.contains(r[k].ssid) by {
        assert(srt.contains(r[k]));
        let m = choose|m: int| 0 <= m < srt.len() && srt[m] == r[k];
        assert(l.contains(srt[m]));
        rows.map_values(f).lemma_filter_contains_rev(named_network(), srt[m]);
        let i = choose|i: int| 0 <= i < rows.map_values(f).len() && rows.map_values(f)[i] == srt[m];
    }
}

/// The WiFi networks of a snapshot are marked saved exactly when one of the
/// snapshot's own WiFi profiles has the network's name as its SSID (or, lacking
/// one, as its name).
pub proof fn law_snapshot_saved_marks(include_wifi: bool, rescan_wifi: bool, rs: Seq<Reply>, s: SnapshotView)
    requires
        snapshot_at(include_wifi, rescan_wifi, rs) == StepView::Done(Ok::<SnapshotView, NmErrorView>(s)),
    ensures
        forall|k: int|
            0 <= k < s.wifi_networks.len() ==> (#[trigger] s.wifi_networks[k]).saved == saved_keys(
                s.connections,
            ).contains(s.wifi_networks[k].ssid),
{
    let (d, k1) = devices_at(rs, 1);
    if let StepView::Done(Ok(devs)) = d {
        let (c, k2) = connections_at(rs, k1);
        if let StepView::Done(Ok(conns)) = c {
            let active = first_active_from(devs, 0);
            let k3 = if active is Some { k2 + 1 } else { k2 };
            let keys = saved_keys(conns);
            let (w, k4) = wifi_at(rescan_wifi, keys, rs, k3);
            if let StepView::Done(Ok(nets)) = w {
                let at2 = if rescan_wifi { k3 + 1 } else { k3 };
                if 0 <= at2 < rs.len() {
                    if let Ok(out) = outcome(rs[at2]) {
                        lemma_wifi_result_saved(out, keys);
                    }
                }
            }
        }
    }
}

} // verus!
