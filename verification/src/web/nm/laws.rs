//! What holds of every answer of the web front-end's WiFi requests.
use vstd::prelude::*;
use crate::text::{lemma_filter_all, lemma_filter_partition, lines, piece};
use crate::nm::reply::{Reply, StepView};
use crate::web::nm::types::WifiView;
use crate::nm::cli::{rescan_args, up_args};
use crate::web::nm::run::{text_or_empty, text_outcome};
use crate::web::nm::settings::{details_at, first_failure, ipv6_settings, update_args, update_at};
use crate::web::nm::types::{Ipv4View, Ipv6View, SavedView, StatusView};
use crate::web::nm::devices::{
    network_devices_at, saved_connections_at, status_at, vpn_connections_at, wifi_device_name_at,
    create_hotspot_at, stop_hotspot_at,
};
use crate::nm::types::DeviceView;
use crate::nm::laws::{device_table_rows, table_rows};
use crate::text::{first_row_with, lemma_pairs_map_last, pairs_map, remove_char, splitn, trim};
use crate::nm::cli::{autoconnect_setting, ipv4_settings, mtu_args, setting_if_set};
use crate::nm::laws::{
    lemma_ipv4_sets_in, lemma_sets_if_set, lemma_sets_pair, lemma_sets_right, lemma_sets_within, mtu_key,
    sets,
};
use crate::text::decimal;
use crate::web::nm::types::DetailsView;
use crate::text::{parse_unsigned, replace_char};
use crate::web::nm::wifi::{
    connect_wifi_at, dedup_ssid, line_network, list_wifi_at, output_networks, profiles_fold,
    saved_profiles_at, scan_wifi_at, signal_buckets, signal_is, sort_by_signal, wifi_profile_rows,
};

verus! {

broadcast use vstd::seq_lib::group_filter_ensures;

proof fn lemma_buckets_members(s: Seq<WifiView>, v: int)
    requires
        v <= 255,
    ensures
        forall|k: int| 0 <= k < signal_buckets(s, v).len() ==> s.contains(#[trigger] signal_buckets(s, v)[k])
            && signal_buckets(s, v)[k].signal <= v,
    decreases v + 1,
{
    if v >= 0 {
        lemma_buckets_members(s, v - 1);
        let f = s.filter(signal_is(v as u8));
        let rest = signal_buckets(s, v - 1);
        assert(signal_buckets(s, v) == f + rest);
        assert forall|k: int| 0 <= k < signal_buckets(s, v).len() implies s.contains(
            #[trigger] signal_buckets(s, v)[k],
        ) && signal_buckets(s, v)[k].signal <= v by {
            if k < f.len() {
                assert(signal_buckets(s, v)[k] == f[k]);
                s.lemma_filter_pred(signal_is(v as u8), k);
                assert(f.contains(f[k]));
                s.lemma_filter_contains_rev(signal_is(v as u8), f[k]);
            } else {
                assert(signal_buckets(s, v)[k] == rest[k - f.len()]);
            }
        }
    }
}

proof fn lemma_buckets_sorted(s: Seq<WifiView>, v: int)
    requires
        v <= 255,
    ensures
        forall|i: int, j: int|
            0 <= i < j < signal_buckets(s, v).len() ==> #[trigger] signal_buckets(s, v)[i].signal
                >= #[trigger] signal_buckets(s, v)[j].signal,
    decreases v + 1,
{
    if v >= 0 {
        lemma_buckets_sorted(s, v - 1);
        lemma_buckets_members(s, v - 1);
        let f = s.filter(signal_is(v as u8));
        let rest = signal_buckets(s, v - 1);
        let b = signal_buckets(s, v);
        assert(b == f + rest);
        assert forall|i: int, j: int| 0 <= i < j < b.len() implies #[trigger] b[i].signal >= #[trigger] b[j].signal by {
            if j < f.len() {
                assert(b[i] == f[i] && b[j] == f[j]);
                s.lemma_filter_pred(signal_is(v as u8), i);
                s.lemma_filter_pred(signal_is(v as u8), j);
            } else if i < f.len() {
                assert(b[i] == f[i]);
                s.lemma_filter_pred(signal_is(v as u8), i);
                assert(b[j] == rest[j - f.len()]);
                assert(rest[j - f.len()].signal <= v - 1);
            } else {
                assert(b[i] == rest[i - f.len()]);
                assert(b[j] == rest[j - f.len()]);
            }
        }
    }
}

proof fn lemma_dedup_members(s: Seq<WifiView>)
    ensures
        forall|k: int| 0 <= k < dedup_ssid(s).len() ==> s.contains(#[trigger] dedup_ssid(s)[k]),
    decreases s.len(),
{
    if s.len() > 0 {
        lemma_dedup_members(s.drop_last());
        let d = dedup_ssid(s.drop_last());
        assert forall|k: int| 0 <= k < dedup_ssid(s).len() implies s.contains(#[trigger] dedup_ssid(s)[k]) by {
            if k < d.len() {
                assert(dedup_ssid(s)[k] == d[k]);
                let j = choose|j: int| 0 <= j < s.drop_last().len() && s.drop_last()[j] == d[k];
                assert(s[j] == d[k]);
            } else {
                assert(dedup_ssid(s)[k] == s.last());
                assert(s[s.len() - 1] == s.last());
            }
        }
    }
}

proof fn lemma_dedup_sorted(s: Seq<WifiView>)
    requires
        forall|i: int, j: int| 0 <= i < j < s.len() ==> #[trigger] s[i].signal >= #[trigger] s[j].signal,
    ensures
        forall|i: int, j: int|
            0 <= i < j < dedup_ssid(s).len() ==> #[trigger] dedup_ssid(s)[i].signal >= #[trigger] dedup_ssid(
                s,
            )[j].signal,
        forall|i: int| 0 <= i < dedup_ssid(s).len() - 1 ==> #[trigger] dedup_ssid(s)[i].ssid != dedup_ssid(s)[i + 1].ssid,
    decreases s.len(),
{
    if s.len() > 0 {
        let t = s.drop_last();
        assert forall|i: int, j: int| 0 <= i < j < t.len() implies #[trigger] t[i].signal >= #[trigger] t[j].signal by {
            assert(t[i] == s[i] && t[j] == s[j]);
        }
        lemma_dedup_sorted(t);
        lemma_dedup_members(t);
        let d = dedup_ssid(t);
        let r = dedup_ssid(s);
        if !(d.len() > 0 && d.last().ssid == s.last().ssid) {
            assert(r == d.push(s.last()));
            assert forall|i: int, j: int| 0 <= i < j < r.len() implies #[trigger] r[i].signal >= #[trigger] r[j].signal by {
                if j < d.len() {
                    assert(r[i] == d[i] && r[j] == d[j]);
                } else {
                    assert(r[i] == d[i]);
                    assert(t.contains(d[i]));
                    let m = choose|m: int| 0 <= m < t.len() && t[m] == d[i];
                    assert(s[m] == d[i]);
                    assert(r[j] == s[s.len() - 1]);
                }
            }
            assert forall|i: int| 0 <= i < r.len() - 1 implies #[trigger] r[i].ssid != r[i + 1].ssid by {
                if i + 1 < d.len() {
                    assert(r[i] == d[i] && r[i + 1] == d[i + 1]);
                } else {
                    assert(r[i] == d.last());
                }
            }
        }
    }
}

/// The networks whose signal is `v` or lower.
spec fn signal_at_most(v: int) -> spec_fn(WifiView) -> bool {
    |n: WifiView| n.signal <= v
}

proof fn lemma_buckets_multiset(s: Seq<WifiView>, v: int)
    requires
        -1 <= v <= 255,
    ensures
        signal_buckets(s, v).to_multiset() == s.filter(signal_at_most(v)).to_multiset(),
    decreases v + 1,
{
    broadcast use vstd::seq_lib::lemma_multiset_commutative;

    if v < 0 {
        let f = s.filter(signal_at_most(v));
        if f.len() > 0 {
            s.lemma_filter_pred(signal_at_most(v), 0);
        }
        assert(f =~= Seq::<WifiView>::empty());
        assert(signal_buckets(s, v) =~= Seq::<WifiView>::empty());
    } else {
        lemma_buckets_multiset(s, v - 1);
        lemma_filter_partition(s, signal_at_most(v), signal_is(v as u8), signal_at_most(v - 1));
        assert(signal_buckets(s, v) == s.filter(signal_is(v as u8)) + signal_buckets(s, v - 1));
    }
}

/// Sorting by signal puts the strongest first and keeps every network: what
/// comes out is what went in, each network as often as before.
pub proof fn law_web_sort_by_signal(s: Seq<WifiView>)
    ensures
        sort_by_signal(s).to_multiset() == s.to_multiset(),
        forall|i: int, j: int|
            0 <= i < j < sort_by_signal(s).len() ==> #[trigger] sort_by_signal(s)[i].signal
                >= #[trigger] sort_by_signal(s)[j].signal,
{
    lemma_buckets_multiset(s, 255);
    lemma_filter_all(s, signal_at_most(255));
    lemma_buckets_sorted(s, 255);
}

/// The networks of the readable lines of the WiFi list, in order.
spec fn readable_networks(out: Seq<char>) -> Seq<WifiView> {
    lines(out).filter_map(|l: Seq<char>| line_network(l))
}

proof fn lemma_lines_named(out: Seq<char>)
    ensures
        forall|k: int| 0 <= k < readable_networks(out).len() ==> #[trigger] readable_networks(out)[k].ssid.len() > 0,
{
    let f = |l: Seq<char>| line_network(l);
    let l = readable_networks(out);
    assert forall|k: int| 0 <= k < l.len() implies #[trigger] l[k].ssid.len() > 0 by {
        assert(l.contains(l[k]));
        lines(out).lemma_filter_map_contains(f, l[k]);
        let t = choose|t: Seq<char>| #[trigger] lines(out).contains(t) && f(t) == Some(l[k]);
        assert(line_network(t) == Some(l[k]));
    }
}

/// The WiFi list of the web front-end is ordered strongest signal first, no
/// network in it has an empty SSID, and no two neighbours share an SSID.
pub proof fn law_web_wifi_order(out: Seq<char>)
    ensures
        forall|i: int, j: int|
            0 <= i < j < output_networks(out).len() ==> #[trigger] output_networks(out)[i].signal
                >= #[trigger] output_networks(out)[j].signal,
        forall|i: int| 0 <= i < output_networks(out).len() - 1 ==> #[trigger] output_networks(out)[i].ssid
            != output_networks(out)[i + 1].ssid,
        forall|k: int| 0 <= k < output_networks(out).len() ==> #[trigger] output_networks(out)[k].ssid.len() > 0,
{
    let l = readable_networks(out);
    let s = sort_by_signal(l);
    lemma_buckets_sorted(l, 255);
    lemma_buckets_members(l, 255);
    lemma_dedup_sorted(s);
    lemma_dedup_members(s);
    lemma_lines_named(out);
    let r = output_networks(out);
    assert forall|k: int| 0 <= k < r.len() implies #[trigger] r[k].ssid.len() > 0 by {
        assert(s.contains(r[k]));
        let m = choose|m: int| 0 <= m < s.len() && s[m] == r[k];
        assert(l.contains(s[m]));
        let p = choose|p: int| 0 <= p < l.len() && l[p] == s[m];
    }
}

/// A saved network reconnects without a password: once the saved profiles
/// are read and one has the network's SSID, connecting with no password (or
/// an empty one) brings that profile up by its name.
pub proof fn law_web_saved_network_reconnects(
    ssid: Seq<char>,
    password: Option<Seq<char>>,
    rs: Seq<Reply>,
    saved: Map<Seq<char>, Seq<char>>,
)
    requires
        password matches Some(p) ==> p.len() == 0,
        saved_profiles_at(rs, 0) == (StepView::Done(Ok::<Map<Seq<char>, Seq<char>>, Seq<char>>(saved)), rs.len() as int),
        saved.contains_key(ssid),
    ensures
        connect_wifi_at(ssid, password, rs) == StepView::<(), Seq<char>>::Run(up_args(saved[ssid])),
{
}

proof fn lemma_profiles_fold_shift(
    rows: Seq<Seq<Seq<char>>>,
    rs: Seq<Reply>,
    d: int,
    base: int,
    i: int,
    acc: Map<Seq<char>, Seq<char>>,
)
    requires
        0 <= d <= base,
        d <= rs.len(),
        0 <= i,
    ensures
        !(profiles_fold(rows, rs, base, i, acc).0 is Run) ==> profiles_fold(rows, rs, base, i, acc).1 >= base + i,
        profiles_fold(rows, rs, base, i, acc).0 == profiles_fold(rows, rs.skip(d), base - d, i, acc).0,
        profiles_fold(rows, rs, base, i, acc).1 == profiles_fold(rows, rs.skip(d), base - d, i, acc).1 + d,
    decreases rows.len() - i,
{
    let t = rs.skip(d);
    if !(i < 0 || i >= rows.len()) && base + i < rs.len() {
        assert(t[base - d + i] == rs[base + i]);
        match text_outcome(rs[base + i]) {
            Err(_) => {},
            Ok(ssid) => {
                let next = if ssid.len() > 0 {
                    acc.insert(ssid, piece(rows[i], 0))
                } else {
                    acc
                };
                lemma_profiles_fold_shift(rows, rs, d, base, i + 1, next);
            },
        }
    }
}

/// Listing the WiFi networks from reply `at` on is listing them on the
/// replies that follow the first `d`, from reply `at - d` on: what came
/// before the listing has no bearing on it.
pub proof fn law_web_list_wifi_shift(rs: Seq<Reply>, d: int, at: int)
    requires
        0 <= d <= at,
        d <= rs.len(),
    ensures
        list_wifi_at(rs, at) == list_wifi_at(rs.skip(d), at - d),
{
    let t = rs.skip(d);
    if at < rs.len() {
        assert(t[at - d] == rs[at]);
        match text_outcome(rs[at]) {
            Err(_) => {},
            Ok(out) => {
                lemma_profiles_fold_shift(
                    wifi_profile_rows(out),
                    rs,
                    d,
                    at + 1,
                    0,
                    Map::empty(),
                );
            },
        }
    }
    let (p, k) = saved_profiles_at(rs, at);
    let (q, m) = saved_profiles_at(t, at - d);
    assert(p == q && k == m + d);
    if !(p is Run) && k < rs.len() {
        assert(t[m] == rs[k]);
    }
}

/// Scanning is rescanning, then listing: the rescan command comes first; its
/// failure is the scan's failure; after it succeeds, the scan answers as the
/// listing does on the replies that follow the rescan.
pub proof fn law_web_scan_is_rescan_then_list(rs: Seq<Reply>)
    ensures
        rs.len() == 0 ==> scan_wifi_at(rs) == StepView::<Seq<WifiView>, Seq<char>>::Run(rescan_args()),
        rs.len() > 0 ==> match text_outcome(rs[0]) {
            Err(e) => scan_wifi_at(rs) == StepView::<Seq<WifiView>, Seq<char>>::Done(Err(e)),
            Ok(_) => scan_wifi_at(rs) == list_wifi_at(rs.skip(1), 0),
        },
{
    if rs.len() > 0 {
        law_web_list_wifi_shift(rs, 1, 1);
    }
}


proof fn lemma_first_failure_prefix(rs: Seq<Reply>, n: int, j: int)
    requires
        0 <= n <= rs.len(),
        first_failure(rs, j) is None,
    ensures
        first_failure(rs.take(n), j) is None,
    decreases 13 - j,
{
    if 0 <= j < 13 && j < n {
        assert(rs.take(n)[j] == rs[j]);
        lemma_first_failure_prefix(rs, n, j + 1);
    }
}

/// The request for the details of `uuid`, on the replies `rs`, asks next for
/// the setting `field` of the profile.
pub open spec fn details_ask(uuid: Seq<char>, rs: Seq<Reply>, field: Seq<char>) -> bool {
    details_at(uuid, rs) == StepView::<DetailsView, Seq<char>>::Run(seq!["-g"@, field, "connection"@, "show"@, uuid])
}

/// The MTU that a reply prints, where it prints a number that fits in 32 bits.
pub open spec fn printed_mtu(r: Reply) -> Option<u32> {
    match text_outcome(r) {
        Ok(v) => match parse_unsigned(v, u32::MAX as nat) {
            Some(n) => Some(n as u32),
            None => None,
        },
        Err(_) => None,
    }
}

/// Reading the details of a profile asks for its settings one by one, in
/// this order: name, type, devices, autoconnect, IPv4 method, addresses,
/// gateway and DNS, IPv6 method, addresses, gateway and DNS, then the WiFi
/// MTU and, where that gives no number, the ethernet MTU. Each detail is the
/// output of the query named after it (empty where that query failed, the
/// DNS lists with their commas made spaces); the name, type and both methods
/// were read; autoconnect is on unless its query printed something other
/// than `yes`.
pub proof fn law_web_details_fields(uuid: Seq<char>, rs: Seq<Reply>, d: DetailsView)
    requires
        details_at(uuid, rs) == StepView::Done(Ok::<DetailsView, Seq<char>>(d)),
    ensures
        rs.len() >= 13,
        details_ask(uuid, rs.take(0), "connection.id"@),
        details_ask(uuid, rs.take(1), "connection.type"@),
        details_ask(uuid, rs.take(2), "GENERAL.DEVICES"@),
        details_ask(uuid, rs.take(3), "connection.autoconnect"@),
        details_ask(uuid, rs.take(4), "ipv4.method"@),
        details_ask(uuid, rs.take(5), "ipv4.addresses"@),
        details_ask(uuid, rs.take(6), "ipv4.gateway"@),
        details_ask(uuid, rs.take(7), "ipv4.dns"@),
        details_ask(uuid, rs.take(8), "ipv6.method"@),
        details_ask(uuid, rs.take(9), "ipv6.addresses"@),
        details_ask(uuid, rs.take(10), "ipv6.gateway"@),
        details_ask(uuid, rs.take(11), "ipv6.dns"@),
        details_ask(uuid, rs.take(12), "802-11-wireless.mtu"@),
        text_outcome(rs[0]) is Ok && text_outcome(rs[1]) is Ok,
        text_outcome(rs[4]) is Ok && text_outcome(rs[8]) is Ok,
        d.uuid == uuid,
        d.name == text_or_empty(rs[0]),
        d.connection_type == text_or_empty(rs[1]),
        d.device == text_or_empty(rs[2]),
        d.autoconnect == (text_outcome(rs[3]) matches Ok(v) ==> v == "yes"@),
        d.ipv4.method == text_or_empty(rs[4]),
        d.ipv4.addresses == text_or_empty(rs[5]),
        d.ipv4.gateway == text_or_empty(rs[6]),
        d.ipv4.dns == replace_char(text_or_empty(rs[7]), ',', ' '),
        d.ipv6.method == text_or_empty(rs[8]),
        d.ipv6.addresses == text_or_empty(rs[9]),
        d.ipv6.gateway == text_or_empty(rs[10]),
        d.ipv6.dns == replace_char(text_or_empty(rs[11]), ',', ' '),
        printed_mtu(rs[12]) is Some ==> d.mtu == printed_mtu(rs[12]),
        printed_mtu(rs[12]) is None ==> rs.len() >= 14 && details_ask(uuid, rs.take(13), "ethernet.mtu"@)
            && d.mtu == printed_mtu(rs[13]),
        d.ipv4.mtu == d.mtu,
{
    assert(first_failure(rs, 0) is None);
    assert forall|n: int| 0 <= n <= 13 implies first_failure(#[trigger] rs.take(n), 0) is None by {
        lemma_first_failure_prefix(rs, n, 0);
    }
    assert(first_failure(rs, 0) is None ==> first_failure(rs, 1) is None);
    assert(first_failure(rs, 1) is None ==> first_failure(rs, 2) is None);
    assert(first_failure(rs, 2) is None ==> first_failure(rs, 3) is None);
    assert(first_failure(rs, 3) is None ==> first_failure(rs, 4) is None);
    assert(first_failure(rs, 4) is None ==> first_failure(rs, 5) is None);
    assert(first_failure(rs, 5) is None ==> first_failure(rs, 6) is None);
    assert(first_failure(rs, 6) is None ==> first_failure(rs, 7) is None);
    assert(first_failure(rs, 7) is None ==> first_failure(rs, 8) is None);
    assert(first_failure(rs, 8) is None ==> first_failure(rs, 9) is None);
}


/// The IPv6 settings of a `modify` command: for the method `manual`, the
/// method and each of the addresses, gateway and DNS servers (spaces made
/// commas) that is not empty; `disabled` as it is; any other method `auto`.
proof fn lemma_ipv6_sets(v6: Ipv6View)
    ensures
        v6.method == "manual"@ ==> {
            let x = ipv6_settings(v6);
            &&& sets(x, "ipv6.method"@, "manual"@)
            &&& v6.addresses.len() > 0 ==> sets(x, "ipv6.addresses"@, v6.addresses)
            &&& v6.gateway.len() > 0 ==> sets(x, "ipv6.gateway"@, v6.gateway)
            &&& v6.dns.len() > 0 ==> sets(x, "ipv6.dns"@, replace_char(v6.dns, ' ', ','))
        },
        v6.method == "disabled"@ ==> sets(ipv6_settings(v6), "ipv6.method"@, "disabled"@),
        v6.method != "manual"@ && v6.method != "disabled"@ ==> sets(ipv6_settings(v6), "ipv6.method"@, "auto"@),
{
    let x = ipv6_settings(v6);
    if v6.method == "manual"@ {
        let m = seq!["ipv6.method"@, "manual"@];
        let sa = setting_if_set("ipv6.addresses"@, v6.addresses);
        let sg = setting_if_set("ipv6.gateway"@, v6.gateway);
        let dv = replace_char(v6.dns, ' ', ',');
        let sd = setting_if_set("ipv6.dns"@, dv);
        let e = Seq::<Seq<char>>::empty();
        assert(x == m + sa + sg + sd);
        assert(dv.len() == v6.dns.len());
        lemma_sets_pair("ipv6.method"@, "manual"@);
        lemma_sets_within(e, m, sa, sg, sd, "ipv6.method"@, "manual"@);
        assert(e + m =~= m);
        lemma_sets_if_set("ipv6.addresses"@, v6.addresses);
        if v6.addresses.len() > 0 {
            lemma_sets_right(m, sa, "ipv6.addresses"@, v6.addresses);
            lemma_sets_within(e, m + sa, sg, sd, e, "ipv6.addresses"@, v6.addresses);
            assert(e + (m + sa) + sg + sd + e =~= x);
        }
        lemma_sets_if_set("ipv6.gateway"@, v6.gateway);
        if v6.gateway.len() > 0 {
            lemma_sets_within(m + sa, sg, sd, e, e, "ipv6.gateway"@, v6.gateway);
            assert(m + sa + sg + sd + e + e =~= x);
        }
        lemma_sets_if_set("ipv6.dns"@, dv);
        if v6.dns.len() > 0 {
            lemma_sets_right(m + sa + sg, sd, "ipv6.dns"@, dv);
        }
    } else if v6.method == "disabled"@ {
        lemma_sets_pair("ipv6.method"@, "disabled"@);
    } else {
        lemma_sets_pair("ipv6.method"@, "auto"@);
    }
}

/// Saving a profile's settings ends in one `modify` command of the profile.
/// It sets the IPv4 method and, for `manual`, each of the addresses, gateway
/// and DNS servers (spaces made commas) that is not empty, or for any other
/// method `auto` with the three cleared; it sets the IPv6 method and, for
/// `manual`, each of its addresses, gateway and DNS servers (spaces made
/// commas) that is not empty, `disabled` as it is, any other method as
/// `auto`; it sets whether the profile connects by itself; with an MTU, it
/// comes after the query of the profile's type and sets the MTU, as a WiFi
/// setting where that type mentions `wireless`, else as an ethernet one.
pub proof fn law_web_update_settings(
    uuid: Seq<char>,
    v4: Ipv4View,
    v6: Ipv6View,
    mtu: Option<u32>,
    autoconnect: bool,
    rs: Seq<Reply>,
    a: Seq<Seq<char>>,
)
    requires
        update_at(uuid, v4, v6, mtu, autoconnect, rs) == StepView::<(), Seq<char>>::Run(a),
        a.len() >= 2,
        a[1] == "modify"@,
    ensures
        a.take(3) == seq!["connection"@, "modify"@, uuid],
        v4.method == "manual"@ ==> {
            &&& sets(a, "ipv4.method"@, "manual"@)
            &&& v4.addresses.len() > 0 ==> sets(a, "ipv4.addresses"@, v4.addresses)
            &&& v4.gateway.len() > 0 ==> sets(a, "ipv4.gateway"@, v4.gateway)
            &&& v4.dns.len() > 0 ==> sets(a, "ipv4.dns"@, replace_char(v4.dns, ' ', ','))
        },
        v4.method != "manual"@ ==> {
            &&& sets(a, "ipv4.method"@, "auto"@)
            &&& sets(a, "ipv4.addresses"@, Seq::<char>::empty())
            &&& sets(a, "ipv4.gateway"@, Seq::<char>::empty())
            &&& sets(a, "ipv4.dns"@, Seq::<char>::empty())
        },
        v6.method == "manual"@ ==> {
            &&& sets(a, "ipv6.method"@, "manual"@)
            &&& v6.addresses.len() > 0 ==> sets(a, "ipv6.addresses"@, v6.addresses)
            &&& v6.gateway.len() > 0 ==> sets(a, "ipv6.gateway"@, v6.gateway)
            &&& v6.dns.len() > 0 ==> sets(a, "ipv6.dns"@, replace_char(v6.dns, ' ', ','))
        },
        v6.method == "disabled"@ ==> sets(a, "ipv6.method"@, "disabled"@),
        v6.method != "manual"@ && v6.method != "disabled"@ ==> sets(a, "ipv6.method"@, "auto"@),
        sets(a, "connection.autoconnect"@, if autoconnect { "yes"@ } else { "no"@ }),
        mtu matches Some(m) ==> rs.len() == 1 && text_outcome(rs[0]) is Ok && sets(
            a,
            mtu_key(text_outcome(rs[0])->Ok_0),
            decimal(m as nat),
        ),
{
    reveal_strlit("modify");
    reveal_strlit("connection.type");
    let pre = seq!["connection"@, "modify"@, uuid];
    let x4 = ipv4_settings(v4.method, v4.addresses, v4.gateway, v4.dns);
    let x6 = ipv6_settings(v6);
    let xa = autoconnect_setting(autoconnect);
    let e = Seq::<Seq<char>>::empty();
    if mtu is Some {
        assert("connection.type"@.len() != "modify"@.len());
    }
    let t = match mtu {
        Some(m) => mtu_args(text_outcome(rs[0])->Ok_0, m),
        None => e,
    };
    assert(update_args(uuid, v4, v6, autoconnect) == pre + x4 + x6 + xa);
    assert(a =~= pre + x4 + x6 + xa + t);
    lemma_ipv4_sets_in(pre, x6, xa, t, v4.method, v4.addresses, v4.gateway, v4.dns);
    lemma_ipv6_sets(v6);
    if v6.method == "manual"@ {
        lemma_sets_within(pre + x4, x6, xa, t, e, "ipv6.method"@, "manual"@);
        if v6.addresses.len() > 0 {
            lemma_sets_within(pre + x4, x6, xa, t, e, "ipv6.addresses"@, v6.addresses);
        }
        if v6.gateway.len() > 0 {
            lemma_sets_within(pre + x4, x6, xa, t, e, "ipv6.gateway"@, v6.gateway);
        }
        if v6.dns.len() > 0 {
            lemma_sets_within(pre + x4, x6, xa, t, e, "ipv6.dns"@, replace_char(v6.dns, ' ', ','));
        }
    } else if v6.method == "disabled"@ {
        lemma_sets_within(pre + x4, x6, xa, t, e, "ipv6.method"@, "disabled"@);
    } else {
        lemma_sets_within(pre + x4, x6, xa, t, e, "ipv6.method"@, "auto"@);
    }
    assert(pre + x4 + x6 + xa + t + e =~= a);
    let av = if autoconnect { "yes"@ } else { "no"@ };
    lemma_sets_pair("connection.autoconnect"@, av);
    lemma_sets_within(pre + x4 + x6, xa, t, e, e, "connection.autoconnect"@, av);
    assert(pre + x4 + x6 + xa + t + e + e =~= a);
    if let Some(m) = mtu {
        lemma_sets_pair(mtu_key(text_outcome(rs[0])->Ok_0), decimal(m as nat));
        lemma_sets_right(pre + x4 + x6 + xa, t, mtu_key(text_outcome(rs[0])->Ok_0), decimal(m as nat));
    }
    assert(a.take(3) =~= pre);
}

/// Saving a profile's settings asks for the `modify` command at once where
/// there is no MTU; with an MTU it asks first for the profile's type, and for
/// the `modify` command once that query succeeded.
pub proof fn law_web_update_asks(
    uuid: Seq<char>,
    v4: Ipv4View,
    v6: Ipv6View,
    mtu: Option<u32>,
    autoconnect: bool,
    r: Reply,
)
    ensures
        mtu is None ==> (update_at(uuid, v4, v6, mtu, autoconnect, Seq::<Reply>::empty()) matches StepView::Run(a)
            && a.len() >= 2 && a[1] == "modify"@),
        mtu is Some ==> update_at(uuid, v4, v6, mtu, autoconnect, Seq::<Reply>::empty())
            == StepView::<(), Seq<char>>::Run(seq!["-g"@, "connection.type"@, "connection"@, "show"@, uuid]),
        mtu is Some && text_outcome(r) is Ok ==> (update_at(uuid, v4, v6, mtu, autoconnect, seq![r]) matches StepView::Run(a)
            && a.len() >= 2 && a[1] == "modify"@),
{
}


/// Listing the profiles asks first for the profile table, then for the names
/// of the active profiles; the profiles are the table's lines in order,
/// loopback left out, each with the name, UUID, type and device of its line,
/// and active exactly when its name is one of the lines (any of them) that
/// the second query printed (none is where it failed).
pub proof fn law_web_connections(rs: Seq<Reply>, cs: Seq<SavedView>)
    requires
        saved_connections_at(rs) == StepView::Done(Ok::<Seq<SavedView>, Seq<char>>(cs)),
    ensures
        saved_connections_at(Seq::<Reply>::empty()) == StepView::<Seq<SavedView>, Seq<char>>::Run(
            seq!["-t"@, "-f"@, "NAME,UUID,TYPE,DEVICE"@, "connection"@, "show"@],
        ),
        saved_connections_at(rs.take(1)) == StepView::<Seq<SavedView>, Seq<char>>::Run(
            seq!["-t"@, "-f"@, "NAME"@, "connection"@, "show"@, "--active"@],
        ),
        text_outcome(rs[0]) is Ok,
        cs.len() == table_rows(text_outcome(rs[0])->Ok_0).len(),
        forall|i: int|
            0 <= i < cs.len() ==> {
                let r = #[trigger] table_rows(text_outcome(rs[0])->Ok_0)[i];
                &&& cs[i].name == piece(r, 0)
                &&& cs[i].uuid == piece(r, 1)
                &&& cs[i].connection_type == piece(r, 2)
                &&& cs[i].device == piece(r, 3)
                &&& cs[i].active == lines(text_or_empty(rs[1])).contains(cs[i].name)
            },
{
    assert(rs.take(1)[0] == rs[0]);
    let out = text_outcome(rs[0])->Ok_0;
    assert(crate::nm::cli::connection_rows(out) == table_rows(out)) by {
        assert(crate::text::field_is_not(2, "loopback"@) =~= (|r: Seq<Seq<char>>| piece(r, 2) != "loopback"@));
        assert(crate::text::split_rows(lines(out), 4) =~= lines(out).map_values(|l: Seq<char>| splitn(l, 4, ':')));
    }
}

/// The VPN profiles are the profiles of type `vpn`, in the order listed.
pub proof fn law_web_vpn_connections(rs: Seq<Reply>, v: Seq<SavedView>)
    requires
        vpn_connections_at(rs) == StepView::Done(Ok::<Seq<SavedView>, Seq<char>>(v)),
    ensures
        saved_connections_at(rs) matches StepView::Done(Ok(cs)) && v == cs.filter(
            |c: SavedView| c.connection_type == "vpn"@,
        ),
{
    if let StepView::Done(Ok(cs)) = saved_connections_at(rs) {
        assert(crate::web::nm::devices::vpn_profile() =~= (|c: SavedView| c.connection_type == "vpn"@));
    }
}

/// Listing the devices asks first for the device table; the devices are its
/// lines in order, loopback left out, each with the name, type, state and
/// connection of its line; then it asks, device by device, for the IPv4
/// addresses of that device, and each device's address is the first line
/// that this query printed (empty where it failed).
pub proof fn law_web_devices(rs: Seq<Reply>, devs: Seq<DeviceView>)
    requires
        network_devices_at(rs, 0).0 == StepView::Done(Ok::<Seq<DeviceView>, Seq<char>>(devs)),
    ensures
        network_devices_at(Seq::<Reply>::empty(), 0).0 == StepView::<Seq<DeviceView>, Seq<char>>::Run(
            seq!["-t"@, "-f"@, "DEVICE,TYPE,STATE,CONNECTION"@, "device"@],
        ),
        text_outcome(rs[0]) is Ok,
        devs.len() == device_table_rows(text_outcome(rs[0])->Ok_0).len(),
        rs.len() >= 1 + devs.len(),
        forall|i: int|
            0 <= i < devs.len() ==> {
                let r = #[trigger] device_table_rows(text_outcome(rs[0])->Ok_0)[i];
                &&& devs[i].name == piece(r, 0)
                &&& devs[i].device_type == piece(r, 1)
                &&& devs[i].state == piece(r, 2)
                &&& devs[i].connection == piece(r, 3)
                &&& network_devices_at(rs.take(1 + i), 0).0 == StepView::<Seq<DeviceView>, Seq<char>>::Run(
                    seq!["-g"@, "IP4.ADDRESS"@, "device"@, "show"@, devs[i].name],
                )
                &&& devs[i].ip4 == piece(lines(text_or_empty(rs[1 + i])), 0)
            },
{
    let out = text_outcome(rs[0])->Ok_0;
    assert(crate::nm::cli::device_rows(out) == device_table_rows(out)) by {
        assert(crate::nm::cli::not_loopback_row() =~= (|r: Seq<Seq<char>>| piece(r, 1) != "loopback"@));
        assert(crate::text::split_rows(lines(out), 4) =~= lines(out).map_values(|l: Seq<char>| splitn(l, 4, ':')));
    }
    assert forall|i: int| 0 <= i < devs.len() implies network_devices_at(#[trigger] rs.take(1 + i), 0).0
        == StepView::<Seq<DeviceView>, Seq<char>>::Run(seq!["-g"@, "IP4.ADDRESS"@, "device"@, "show"@, devs[i].name]) by {
        assert(rs.take(1 + i)[0] == rs[0]);
    }
}

proof fn lemma_first_row_with(rows: Seq<Seq<Seq<char>>>, field: int, value: Seq<char>, i: int)
    requires
        0 <= i,
    ensures
        first_row_with(rows, field, value, i) matches Some(k) ==> i <= k < rows.len() && piece(rows[k], field)
            == value && forall|j: int| i <= j < k ==> piece(#[trigger] rows[j], field) != value,
        first_row_with(rows, field, value, i) is None ==> forall|j: int|
            i <= j < rows.len() ==> piece(#[trigger] rows[j], field) != value,
    decreases rows.len() - i,
{
    if i < rows.len() {
        lemma_first_row_with(rows, field, value, i + 1);
    }
}

/// The line `l` of the device status table, split into at most three fields
/// at `:`, names a device of type `wifi`.
pub open spec fn wifi_status_line(l: Seq<char>) -> bool {
    piece(splitn(l, 3, ':'), 1) == "wifi"@
}

/// The WiFi device is found in the device status table, its only query: it
/// is the first device of its lines whose type is `wifi`, and there is none
/// exactly where no line has that type.
pub proof fn law_web_wifi_device(rs: Seq<Reply>)
    requires
        rs.len() == 1,
        text_outcome(rs[0]) is Ok,
    ensures
        wifi_device_name_at(Seq::<Reply>::empty(), 0).0 == StepView::<Seq<char>, Seq<char>>::Run(
            seq!["-t"@, "-f"@, "DEVICE,TYPE,STATE"@, "device"@, "status"@],
        ),
        ({
            let ls = lines(text_outcome(rs[0])->Ok_0);
            &&& forall|i: int|
                0 <= i < ls.len() && wifi_status_line(#[trigger] ls[i]) && (forall|j: int|
                    0 <= j < i ==> !wifi_status_line(ls[j])) ==> wifi_device_name_at(rs, 0).0 == StepView::<
                    Seq<char>,
                    Seq<char>,
                >::Done(Ok(piece(splitn(ls[i], 3, ':'), 0)))
            &&& (forall|j: int| 0 <= j < ls.len() ==> !wifi_status_line(#[trigger] ls[j]))
                ==> wifi_device_name_at(rs, 0).0 == StepView::<Seq<char>, Seq<char>>::Done(
                Err("No WiFi device found"@),
            )
        }),
{
    let ls = lines(text_outcome(rs[0])->Ok_0);
    let rows = crate::text::split_rows(ls, 3);
    lemma_first_row_with(rows, 1, "wifi"@, 0);
    assert forall|j: int| 0 <= j < ls.len() implies rows[j] == splitn(#[trigger] ls[j], 3, ':') by {}
    assert forall|i: int|
        0 <= i < ls.len() && wifi_status_line(#[trigger] ls[i]) && (forall|j: int|
            0 <= j < i ==> !wifi_status_line(ls[j])) implies wifi_device_name_at(rs, 0).0 == StepView::<
        Seq<char>,
        Seq<char>,
    >::Done(Ok(piece(splitn(ls[i], 3, ':'), 0))) by {
        assert(rows[i] == splitn(ls[i], 3, ':'));
        if let Some(k) = first_row_with(rows, 1, "wifi"@, 0) {
            if k < i {
                assert(rows[k] == splitn(ls[k], 3, ':'));
                assert(!wifi_status_line(ls[k]));
            }
        }
    }
    if forall|j: int| 0 <= j < ls.len() ==> !wifi_status_line(#[trigger] ls[j]) {
        if let Some(k) = first_row_with(rows, 1, "wifi"@, 0) {
            assert(rows[k] == splitn(ls[k], 3, ':'));
            assert(!wifi_status_line(ls[k]));
        }
    }
}


/// A device that carries the connection: its state begins with `connected`
/// and it is not the loopback device.
pub open spec fn carries_connection(d: DeviceView) -> bool {
    "connected"@.is_prefix_of(d.state) && d.device_type != "loopback"@
}

proof fn lemma_first_active(devs: Seq<DeviceView>, i: int)
    requires
        0 <= i,
    ensures
        crate::nm::cli::first_active_from(devs, i) matches Some(k) ==> i <= k < devs.len() && carries_connection(
            devs[k],
        ) && forall|j: int| i <= j < k ==> !carries_connection(#[trigger] devs[j]),
        crate::nm::cli::first_active_from(devs, i) is None ==> forall|j: int|
            i <= j < devs.len() ==> !carries_connection(#[trigger] devs[j]),
    decreases devs.len() - i,
{
    if i < devs.len() {
        lemma_first_active(devs, i + 1);
    }
}

/// The connection state is read from the devices, then, where a device
/// carries the connection, from the addresses and gateway of the first such
/// device, and last from the radio. It is connected exactly when some device
/// carries the connection; its connection, device, type, address (first line
/// of the address query) and gateway (second line) are those of the first
/// such device; WiFi is on exactly when the radio query printed `enabled`.
pub proof fn law_web_status(rs: Seq<Reply>, st: StatusView)
    requires
        status_at(rs) == StepView::Done(Ok::<StatusView, Seq<char>>(st)),
    ensures
        network_devices_at(rs, 0).0 matches StepView::Done(Ok(devs)) && {
            let k: int = 1 + devs.len() as int;
            &&& st.connected == exists|i: int| 0 <= i < devs.len() && carries_connection(#[trigger] devs[i])
            &&& forall|i: int|
                0 <= i < devs.len() && carries_connection(#[trigger] devs[i]) && (forall|j: int|
                    0 <= j < i ==> !carries_connection(devs[j])) ==> {
                    &&& rs.len() >= k + 2
                    &&& status_at(rs.take(k)) == StepView::<StatusView, Seq<char>>::Run(
                        seq!["-g"@, "IP4.ADDRESS,IP4.GATEWAY"@, "device"@, "show"@, devs[i].name],
                    )
                    &&& text_outcome(rs[k]) is Ok
                    &&& st.ssid == devs[i].connection
                    &&& st.device == devs[i].name
                    &&& st.connection_type == devs[i].device_type
                    &&& st.ip4 == piece(lines(text_outcome(rs[k])->Ok_0), 0)
                    &&& st.gateway == piece(lines(text_outcome(rs[k])->Ok_0), 1)
                    &&& status_at(rs.take(k + 1)) == StepView::<StatusView, Seq<char>>::Run(seq!["radio"@, "wifi"@])
                    &&& st.wifi_enabled == (trim(text_outcome(rs[k + 1])->Ok_0) == "enabled"@)
                }
            &&& (forall|j: int| 0 <= j < devs.len() ==> !carries_connection(#[trigger] devs[j])) ==> {
                &&& rs.len() >= k + 1
                &&& status_at(rs.take(k)) == StepView::<StatusView, Seq<char>>::Run(seq!["radio"@, "wifi"@])
                &&& st.wifi_enabled == (trim(text_outcome(rs[k])->Ok_0) == "enabled"@)
                &&& st.ssid.len() == 0 && st.device.len() == 0 && st.ip4.len() == 0 && st.gateway.len() == 0
            }
        },
{
    let (d, k) = network_devices_at(rs, 0);
    if let StepView::Done(Ok(devs)) = d {
        lemma_first_active(devs, 0);
        assert(k == 1 + devs.len());
        assert forall|n: int| k <= n <= rs.len() implies #[trigger] network_devices_at(rs.take(n), 0) == (d, k) by {
            let t = rs.take(n);
            assert(t[0] == rs[0]);
            if let Ok(out) = text_outcome(rs[0]) {
                let rows = crate::nm::cli::device_rows(out);
                assert(Seq::new(rows.len(), |i: int| crate::web::nm::devices::network_device_of(rows[i], t[1 + i]))
                    =~= Seq::new(rows.len(), |i: int| crate::web::nm::devices::network_device_of(rows[i], rs[1 + i])))
                    by {
                    assert forall|i: int| 0 <= i < rows.len() implies #[trigger] t[1 + i] == rs[1 + i] by {}
                }
            }
        }
        assert(st.connected == exists|i: int| 0 <= i < devs.len() && carries_connection(#[trigger] devs[i])) by {
            if let Some(i) = crate::nm::cli::first_active_from(devs, 0) {
                assert(carries_connection(devs[i]));
            }
        }
        if let Some(i) = crate::nm::cli::first_active_from(devs, 0) {
            assert(network_devices_at(rs.take(k), 0) == (d, k));
            assert(network_devices_at(rs.take(k + 1), 0) == (d, k));
            assert(rs.take(k + 1)[k] == rs[k]);
            assert forall|i2: int|
                0 <= i2 < devs.len() && carries_connection(#[trigger] devs[i2]) && (forall|j: int|
                    0 <= j < i2 ==> !carries_connection(devs[j])) implies i2 == i by {
                if i2 < i {
                    assert(!carries_connection(devs[i2]));
                }
                if i < i2 {
                    assert(!carries_connection(devs[i]));
                }
            }
        } else {
            assert(network_devices_at(rs.take(k), 0) == (d, k));
        }
    }
}

/// Each listed network is marked saved exactly when a saved profile has its
/// SSID, and is otherwise as the list gave it.
pub proof fn law_web_mark_saved(nets: Seq<WifiView>, saved: Map<Seq<char>, Seq<char>>)
    ensures
        crate::web::nm::wifi::mark_saved(nets, saved).len() == nets.len(),
        forall|i: int|
            0 <= i < nets.len() ==> {
                let m = #[trigger] crate::web::nm::wifi::mark_saved(nets, saved)[i];
                &&& m.saved == saved.contains_key(nets[i].ssid)
                &&& m.ssid == nets[i].ssid && m.signal == nets[i].signal && m.security == nets[i].security
                &&& m.in_use == nets[i].in_use && m.bssid == nets[i].bssid
            },
{
}

/// Starting a hotspot asks first for the device status table and then, on
/// the WiFi device found there, for `device wifi hotspot ifname <device> ssid
/// <ssid>`, followed by `password <password>` where a password is given.
pub proof fn law_web_hotspot_command(ssid: Seq<char>, password: Seq<char>, r: Reply, dev: Seq<char>)
    requires
        wifi_device_name_at(seq![r], 0).0 == StepView::Done(Ok::<Seq<char>, Seq<char>>(dev)),
    ensures
        create_hotspot_at(ssid, password, Seq::<Reply>::empty()) == StepView::<Seq<char>, Seq<char>>::Run(
            seq!["-t"@, "-f"@, "DEVICE,TYPE,STATE"@, "device"@, "status"@],
        ),
        password.len() == 0 ==> create_hotspot_at(ssid, password, seq![r]) == StepView::<Seq<char>, Seq<char>>::Run(
            seq!["device"@, "wifi"@, "hotspot"@, "ifname"@, dev, "ssid"@, ssid],
        ),
        password.len() > 0 ==> create_hotspot_at(ssid, password, seq![r]) == StepView::<Seq<char>, Seq<char>>::Run(
            seq!["device"@, "wifi"@, "hotspot"@, "ifname"@, dev, "ssid"@, ssid, "password"@, password],
        ),
        stop_hotspot_at(seq![r]) == StepView::<(), Seq<char>>::Run(seq!["device"@, "disconnect"@, dev]),
{
    if password.len() > 0 {
        assert(crate::web::nm::devices::hotspot_args(dev, ssid, password) =~= seq![
            "device"@,
            "wifi"@,
            "hotspot"@,
            "ifname"@,
            dev,
            "ssid"@,
            ssid,
            "password"@,
            password,
        ]);
    }
}


/// The line `line` of the WiFi list, split into at most five fields at `:`,
/// describes the network `n`: at least three fields, its SSID is the first
/// field without backslashes and not empty, its signal is the second field, a
/// number from 0 to 255, its security is the third field, it is in use where
/// the fourth is `*`, and its BSSID is the fifth without backslashes.
pub open spec fn web_line_describes(line: Seq<char>, n: WifiView) -> bool {
    let p = splitn(line, 5, ':');
    &&& p.len() >= 3
    &&& n.ssid == remove_char(p[0], '\\')
    &&& n.ssid.len() > 0
    &&& parse_unsigned(p[1], 255) == Some(n.signal as nat)
    &&& n.security == p[2]
    &&& n.in_use == (piece(p, 3) == "*"@)
    &&& n.bssid == remove_char(piece(p, 4), '\\')
}

/// Some line of the list `out` describes the network `n`.
pub open spec fn web_listed_in(out: Seq<char>, n: WifiView) -> bool {
    exists|l: int| 0 <= l < lines(out).len() && web_line_describes(#[trigger] lines(out)[l], n)
}

/// Every network that the WiFi list gives is described by one of its lines.
pub proof fn law_web_wifi_lines(out: Seq<char>)
    ensures
        forall|k: int| 0 <= k < output_networks(out).len() ==> web_listed_in(out, #[trigger] output_networks(out)[k]),
{
    let f = |l: Seq<char>| line_network(l);
    let l = readable_networks(out);
    let srt = sort_by_signal(l);
    lemma_buckets_members(l, 255);
    lemma_dedup_members(srt);
    let r = output_networks(out);
    assert forall|k: int| 0 <= k < r.len() implies web_listed_in(out, #[trigger] r[k]) by {
        assert(srt.contains(r[k]));
        let m = choose|m: int| 0 <= m < srt.len() && srt[m] == r[k];
        assert(l.contains(srt[m]));
        lines(out).lemma_filter_map_contains(f, srt[m]);
        let t = choose|t: Seq<char>| #[trigger] lines(out).contains(t) && f(t) == Some(srt[m]);
        let i = choose|i: int| 0 <= i < lines(out).len() && lines(out)[i] == t;
        assert(web_line_describes(lines(out)[i], r[k]));
    }
}


/// How a run of `nmcli` reads for the web front-end: a run that exited with
/// success gives its output, trimmed; a failed run gives its trimmed error
/// output, or, where that is empty, "nmcli failed: " and its trimmed output;
/// a run that could not start gives "Failed to run nmcli: " and the reason.
pub proof fn law_web_run_outcome(success: bool, stdout: String, stderr: String, reason: String)
    ensures
        success ==> text_outcome(Reply::Exited { success, stdout, stderr }) == Ok::<Seq<char>, Seq<char>>(trim(stdout@)),
        !success && trim(stderr@).len() > 0 ==> text_outcome(Reply::Exited { success, stdout, stderr })
            == Err::<Seq<char>, Seq<char>>(trim(stderr@)),
        !success && trim(stderr@).len() == 0 ==> text_outcome(Reply::Exited { success, stdout, stderr })
            == Err::<Seq<char>, Seq<char>>("nmcli failed: "@ + trim(stdout@)),
        text_outcome(Reply::SpawnFailed(reason)) == Err::<Seq<char>, Seq<char>>("Failed to run nmcli: "@ + reason@),
{
}


/// Connecting with a password that is not empty runs one command that
/// carries it; without one (or with an empty one), once the saved profiles
/// are read, a network that none of them has is joined by its name.
pub proof fn law_web_connect(
    ssid: Seq<char>,
    password: Option<Seq<char>>,
    rs: Seq<Reply>,
    saved: Map<Seq<char>, Seq<char>>,
)
    ensures
        (password matches Some(p) && p.len() > 0) ==> connect_wifi_at(ssid, password, Seq::<Reply>::empty())
            == StepView::<(), Seq<char>>::Run(
            seq!["device"@, "wifi"@, "connect"@, ssid, "password"@, password->Some_0],
        ),
        (password matches Some(p) ==> p.len() == 0) && saved_profiles_at(rs, 0) == (
            StepView::Done(Ok::<Map<Seq<char>, Seq<char>>, Seq<char>>(saved)),
            rs.len() as int,
        ) && !saved.contains_key(ssid) ==> connect_wifi_at(ssid, password, rs) == StepView::<(), Seq<char>>::Run(
            seq!["device"@, "wifi"@, "connect"@, ssid],
        ),
{
}


proof fn lemma_profiles_fold_prefix(
    rows: Seq<Seq<Seq<char>>>,
    rs: Seq<Reply>,
    base: int,
    i: int,
    acc: Map<Seq<char>, Seq<char>>,
    n: int,
)
    requires
        0 <= i,
        0 <= base,
        !(profiles_fold(rows, rs, base, i, acc).0 is Run),
        profiles_fold(rows, rs, base, i, acc).1 <= n <= rs.len(),
    ensures
        profiles_fold(rows, rs.take(n), base, i, acc) == profiles_fold(rows, rs, base, i, acc),
    decreases rows.len() - i,
{
    let t = rs.take(n);
    lemma_profiles_fold_shift(rows, rs, 0, base, i, acc);
    if i < rows.len() && base + i < rs.len() {
        match text_outcome(rs[base + i]) {
            Err(_) => {
                assert(base + i < n);
                assert(t[base + i] == rs[base + i]);
            },
            Ok(ssid) => {
                let next = if ssid.len() > 0 {
                    acc.insert(ssid, piece(rows[i], 0))
                } else {
                    acc
                };
                lemma_profiles_fold_shift(rows, rs, 0, base, i + 1, next);
                assert(base + i < n);
                assert(t[base + i] == rs[base + i]);
                lemma_profiles_fold_prefix(rows, rs, base, i + 1, next, n);
            },
        }
    }
}

/// Listing the WiFi networks reads the saved profiles first, then asks for
/// the WiFi list; the networks are those that the list gives, in its order,
/// each marked saved exactly when a saved profile has its SSID.
pub proof fn law_web_list_wifi(rs: Seq<Reply>, nets: Seq<WifiView>)
    requires
        list_wifi_at(rs, 0) == StepView::Done(Ok::<Seq<WifiView>, Seq<char>>(nets)),
    ensures
        saved_profiles_at(rs, 0).0 matches StepView::Done(Ok(saved)) && {
            let k = saved_profiles_at(rs, 0).1;
            &&& 0 <= k < rs.len()
            &&& list_wifi_at(rs.take(k), 0) == StepView::<Seq<WifiView>, Seq<char>>::Run(
                seq!["-t"@, "-f"@, "SSID,SIGNAL,SECURITY,IN-USE,BSSID"@, "device"@, "wifi"@, "list"@],
            )
            &&& text_outcome(rs[k]) is Ok
            &&& nets.len() == output_networks(text_outcome(rs[k])->Ok_0).len()
            &&& forall|i: int|
                0 <= i < nets.len() ==> {
                    let n = #[trigger] output_networks(text_outcome(rs[k])->Ok_0)[i];
                    &&& nets[i].saved == saved.contains_key(n.ssid)
                    &&& nets[i].ssid == n.ssid && nets[i].signal == n.signal && nets[i].security == n.security
                    &&& nets[i].in_use == n.in_use && nets[i].bssid == n.bssid
                }
        },
{
    let (p, k) = saved_profiles_at(rs, 0);
    assert(0 < rs.len());
    assert(rs.take(k).len() == k) by {
        if let Ok(out) = text_outcome(rs[0]) {
            lemma_profiles_fold_shift(wifi_profile_rows(out), rs, 0, 1, 0, Map::empty());
        }
    }
    if let Ok(out) = text_outcome(rs[0]) {
        lemma_profiles_fold_shift(wifi_profile_rows(out), rs, 0, 1, 0, Map::empty());
        lemma_profiles_fold_prefix(wifi_profile_rows(out), rs, 1, 0, Map::empty(), k);
        assert(rs.take(k)[0] == rs[0]);
    }
}


/// The (SSID, profile name) pairs that the first `n` SSID queries give, one
/// per WiFi profile row whose query printed a non-empty SSID, in row order.
pub open spec fn profile_pairs(rows: Seq<Seq<Seq<char>>>, rs: Seq<Reply>, base: int, n: int) -> Seq<
    (Seq<char>, Seq<char>),
>
    decreases n,
{
    if n <= 0 {
        Seq::empty()
    } else {
        profile_pairs(rows, rs, base, n - 1) + match text_outcome(rs[base + n - 1]) {
            Ok(x) => if x.len() > 0 {
                seq![(x, piece(rows[n - 1], 0))]
            } else {
                Seq::empty()
            },
            Err(_) => Seq::empty(),
        }
    }
}

proof fn lemma_profiles_fold_pairs(rows: Seq<Seq<Seq<char>>>, rs: Seq<Reply>, base: int, i: int)
    requires
        0 <= i <= rows.len(),
        profiles_fold(rows, rs, base, i, pairs_map(profile_pairs(rows, rs, base, i))).0 is Done,
        profiles_fold(rows, rs, base, i, pairs_map(profile_pairs(rows, rs, base, i))).0->Done_0 is Ok,
    ensures
        profiles_fold(rows, rs, base, i, pairs_map(profile_pairs(rows, rs, base, i))).0->Done_0->Ok_0 == pairs_map(
            profile_pairs(rows, rs, base, rows.len() as int),
        ),
    decreases rows.len() - i,
{
    if i < rows.len() {
        let acc = pairs_map(profile_pairs(rows, rs, base, i));
        let pp = profile_pairs(rows, rs, base, i + 1);
        if let Ok(x) = text_outcome(rs[base + i]) {
            if x.len() > 0 {
                assert(pp.drop_last() =~= profile_pairs(rows, rs, base, i));
                assert(pairs_map(pp) == acc.insert(x, piece(rows[i], 0)));
            } else {
                assert(pp =~= profile_pairs(rows, rs, base, i));
            }
            lemma_profiles_fold_pairs(rows, rs, base, i + 1);
        }
    }
}


proof fn lemma_profiles_fold_asks(
    rows: Seq<Seq<Seq<char>>>,
    rs: Seq<Reply>,
    base: int,
    i: int,
    acc: Map<Seq<char>, Seq<char>>,
    j: int,
)
    requires
        0 <= i <= j < rows.len(),
        0 <= base,
        base + j <= rs.len(),
        profiles_fold(rows, rs, base, i, acc).0 matches StepView::Done(Ok(_)),
    ensures
        profiles_fold(rows, rs.take(base + j), base, i, acc).0 == StepView::<Map<Seq<char>, Seq<char>>, Seq<char>>::Run(
            seq!["-g"@, "802-11-wireless.ssid"@, "connection"@, "show"@, piece(rows[j], 0)],
        ),
    decreases j - i,
{
    let t = rs.take(base + j);
    if i < j {
        assert(t[base + i] == rs[base + i]);
        if let Ok(ssid) = text_outcome(rs[base + i]) {
            let next = if ssid.len() > 0 {
                acc.insert(ssid, piece(rows[i], 0))
            } else {
                acc
            };
            lemma_profiles_fold_asks(rows, rs, base, i + 1, next, j);
        }
    }
}

proof fn lemma_profiles_fold_bound(
    rows: Seq<Seq<Seq<char>>>,
    rs: Seq<Reply>,
    base: int,
    i: int,
    acc: Map<Seq<char>, Seq<char>>,
)
    requires
        0 <= i <= rows.len(),
        profiles_fold(rows, rs, base, i, acc).0 matches StepView::Done(Ok(_)),
    ensures
        i < rows.len() ==> base + rows.len() <= rs.len(),
    decreases rows.len() - i,
{
    if i < rows.len() {
        if let Ok(ssid) = text_outcome(rs[base + i]) {
            let next = if ssid.len() > 0 {
                acc.insert(ssid, piece(rows[i], 0))
            } else {
                acc
            };
            lemma_profiles_fold_bound(rows, rs, base, i + 1, next);
        }
    }
}

/// Reading the saved profiles asks first for the table of profile names and
/// types, then, for each profile of type `wifi` in turn, for its SSID. A
/// network counts as saved exactly when one of these queries printed its
/// SSID (not empty), and it is saved under the name of the last profile
/// whose query printed it.
pub proof fn law_web_saved_profiles(rs: Seq<Reply>, saved: Map<Seq<char>, Seq<char>>, x: Seq<char>)
    requires
        saved_profiles_at(rs, 0).0 == StepView::Done(Ok::<Map<Seq<char>, Seq<char>>, Seq<char>>(saved)),
    ensures
        saved_profiles_at(Seq::<Reply>::empty(), 0).0 == StepView::<Map<Seq<char>, Seq<char>>, Seq<char>>::Run(
            seq!["-t"@, "-f"@, "NAME,TYPE"@, "connection"@, "show"@],
        ),
        text_outcome(rs[0]) is Ok,
        wifi_profile_rows(text_outcome(rs[0])->Ok_0) == lines(text_outcome(rs[0])->Ok_0).map_values(
            |l: Seq<char>| splitn(l, 2, ':'),
        ).filter(|r: Seq<Seq<char>>| piece(r, 1) == "wifi"@),
        forall|j: int|
            0 <= j < wifi_profile_rows(text_outcome(rs[0])->Ok_0).len() ==> saved_profiles_at(#[trigger] rs.take(1 + j), 0).0
                == StepView::<Map<Seq<char>, Seq<char>>, Seq<char>>::Run(
                seq!["-g"@, "802-11-wireless.ssid"@, "connection"@, "show"@, piece(wifi_profile_rows(text_outcome(rs[0])->Ok_0)[j], 0)],
            ),
        ({
            let p = profile_pairs(
                wifi_profile_rows(text_outcome(rs[0])->Ok_0),
                rs,
                1,
                wifi_profile_rows(text_outcome(rs[0])->Ok_0).len() as int,
            );
            &&& saved.contains_key(x) <==> exists|i: int| 0 <= i < p.len() && (#[trigger] p[i]).0 == x
            &&& forall|i: int|
                0 <= i < p.len() && (#[trigger] p[i]).0 == x && (forall|j: int| i < j < p.len() ==> p[j].0 != x)
                    ==> saved[x] == p[i].1
        }),
{
    let rows = wifi_profile_rows(text_outcome(rs[0])->Ok_0);
    assert(pairs_map(profile_pairs(rows, rs, 1, 0)) == Map::<Seq<char>, Seq<char>>::empty());
    lemma_profiles_fold_pairs(rows, rs, 1, 0);
    lemma_pairs_map_last(profile_pairs(rows, rs, 1, rows.len() as int), x);
    let out = text_outcome(rs[0])->Ok_0;
    assert(crate::web::nm::wifi::wifi_row() =~= (|r: Seq<Seq<char>>| piece(r, 1) == "wifi"@));
    assert(crate::text::split_rows(lines(out), 2) =~= lines(out).map_values(|l: Seq<char>| splitn(l, 2, ':')));
    assert forall|j: int| 0 <= j < rows.len() implies saved_profiles_at(#[trigger] rs.take(1 + j), 0).0
        == StepView::<Map<Seq<char>, Seq<char>>, Seq<char>>::Run(
        seq!["-g"@, "802-11-wireless.ssid"@, "connection"@, "show"@, piece(rows[j], 0)],
    ) by {
        lemma_profiles_fold_shift(rows, rs, 0, 1, 0, Map::empty());
        assert(1 + j <= rs.len()) by {
            lemma_profiles_fold_bound(rows, rs, 1, 0, Map::empty());
        }
        lemma_profiles_fold_asks(rows, rs, 1, 0, Map::empty(), j);
        assert(rs.take(1 + j)[0] == rs[0]);
    }
}

} // verus!
