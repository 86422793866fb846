//! WiFi networks in range, saved WiFi profiles, and connecting.
use vstd::prelude::*;
use crate::text::{
    lookup, pairs_map, pairs_view, chars_of, eq_str, lemma_filter_take_next, lines, lines_of, lit,
    parse_u8_chars, parse_unsigned, piece, piece_of, remove_char, remove_char_chars, rows_of,
    rows_of_lines, seqs, split_rows, splitn, splitn_chars, string_of,
};
use crate::nm::reply::{Reply, Step, StepView, strs};
use crate::nm::cli::{
    connect_args, connect_password_args, password_view, profile_ssid_args, rescan_args, up_args,
    wifi_list_args,
};
use crate::web::nm::types::{WifiNetwork, WifiView};
use crate::web::nm::run::{text_outcome, text_outcome_of, unit_at, unit_steps};

verus! {

// ---------------------------------------------------------------------------
// The WiFi list
// ---------------------------------------------------------------------------

/// The network of one line of the WiFi list: none where the signal or the
/// security field is missing, the signal is no number from 0 to 255, or the
/// SSID (backslashes removed) is empty.
pub open spec fn line_network(line: Seq<char>) -> Option<WifiView> {
    let p = splitn(line, 5, ':');
    if p.len() < 3 {
        None
    } else {
        match parse_unsigned(p[1], 255) {
            None => None,
            Some(sig) => {
                let ssid = remove_char(p[0], '\\');
                if ssid.len() == 0 {
                    None
                } else {
                    Some(
                        WifiView {
                            ssid,
                            signal: sig as u8,
                            security: p[2],
                            in_use: piece(p, 3) == "*"@,
                            bssid: remove_char(piece(p, 4), '\\'),
                            saved: false,
                        },
                    )
                }
            },
        }
    }
}

/// Reads one line of the WiFi list.
pub fn parse_wifi_line(line: &str) -> (n: Option<WifiNetwork>)
    ensures
        match (n, line_network(line@)) {
            (Some(a), Some(b)) => a.deep_view() == b,
            (None, None) => true,
            _ => false,
        },
{
    let lc = chars_of(line);
    parse_line_chars(lc.as_slice())
}

fn parse_line_chars(line: &[char]) -> (n: Option<WifiNetwork>)
    ensures
        match (n, line_network(line@)) {
            (Some(a), Some(b)) => a.deep_view() == b,
            (None, None) => true,
            _ => false,
        },
{
    let p = splitn_chars(line, 5, ':');
    if p.len() < 3 {
        return None;
    }
    let signal = match parse_u8_chars(p[1].as_slice()) {
        None => {
            return None;
        },
        Some(s) => s,
    };
    let ssid = remove_char_chars(p[0].as_slice(), '\\');
    if ssid.len() == 0 {
        return None;
    }
    let f3 = piece_of(&p, 3);
    let f4 = piece_of(&p, 4);
    let bssid = remove_char_chars(f4.as_slice(), '\\');
    Some(
        WifiNetwork {
            ssid: string_of(ssid.as_slice()),
            signal,
            security: string_of(p[2].as_slice()),
            in_use: eq_str(f3.as_slice(), "*"),
            bssid: string_of(bssid.as_slice()),
            saved: false,
        },
    )
}

/// Networks whose signal is `v`.
pub open spec fn signal_is(v: u8) -> spec_fn(WifiView) -> bool {
    |n: WifiView| n.signal == v
}

/// The networks whose signal is `v` or lower, strongest first; those of equal
/// signal in their order in `s`.
pub open spec fn signal_buckets(s: Seq<WifiView>, v: int) -> Seq<WifiView>
    decreases v + 1,
{
    if v < 0 {
        Seq::<WifiView>::empty()
    } else {
        s.filter(signal_is(v as u8)) + signal_buckets(s, v - 1)
    }
}

/// `s` sorted by signal, strongest first, keeping the order of equal signals.
pub open spec fn sort_by_signal(s: Seq<WifiView>) -> Seq<WifiView> {
    signal_buckets(s, 255)
}

/// `s` without each network whose SSID is that of the network kept before it.
pub open spec fn dedup_ssid(s: Seq<WifiView>) -> Seq<WifiView>
    decreases s.len(),
{
    if s.len() == 0 {
        s
    } else {
        let d = dedup_ssid(s.drop_last());
        if d.len() > 0 && d.last().ssid == s.last().ssid {
            d
        } else {
            d.push(s.last())
        }
    }
}

/// The networks of the WiFi list: the readable lines, strongest signal
/// first, each dropped whose SSID is that of the network kept before it.
pub open spec fn output_networks(out: Seq<char>) -> Seq<WifiView> {
    dedup_ssid(sort_by_signal(lines(out).filter_map(|l: Seq<char>| line_network(l))))
}

fn sorted_by_signal(s: &Vec<WifiNetwork>) -> (v: Vec<WifiNetwork>)
    ensures
        v.deep_view() == sort_by_signal(s.deep_view()),
{
    let ghost sv = s.deep_view();
    let mut v: Vec<WifiNetwork> = Vec::new();
    let mut level: u16 = 256;
    while level > 0
        invariant
            level <= 256,
            sv == s.deep_view(),
            v.deep_view() + signal_buckets(sv, level - 1) == sort_by_signal(sv),
        decreases level,
    {
        level -= 1;
        let want: u8 = level as u8;
        let ghost start = v.deep_view();
        let mut i: usize = 0;
        while i < s.len()
            invariant
                i <= s@.len(),
                sv == s.deep_view(),
                want == level,
                v.deep_view() == start + sv.take(i as int).filter(signal_is(want)),
            decreases s@.len() - i,
        {
            proof {
                lemma_filter_take_next(sv, signal_is(want), i as int);
            }
            if s[i].signal == want {
                let n = s[i].copy();
                let ghost before = v.deep_view();
                v.push(n);
                assert(v.deep_view() =~= before.push(n.deep_view()));
            }
            i += 1;
        }
        proof {
            assert(sv.take(sv.len() as int) =~= sv);
            assert(signal_buckets(sv, level as int) == sv.filter(signal_is(want)) + signal_buckets(sv, level - 1));
            assert(v.deep_view() + signal_buckets(sv, level - 1) =~= start + signal_buckets(sv, level as int));
        }
    }
    assert(v.deep_view() =~= v.deep_view() + signal_buckets(sv, -1));
    v
}

fn dedup_by_ssid(s: &Vec<WifiNetwork>) -> (v: Vec<WifiNetwork>)
    ensures
        v.deep_view() == dedup_ssid(s.deep_view()),
{
    let ghost sv = s.deep_view();
    let mut v: Vec<WifiNetwork> = Vec::new();
    let mut i: usize = 0;
    while i < s.len()
        invariant
            sv == s.deep_view(),
            i <= s@.len(),
            v.deep_view() == dedup_ssid(sv.take(i as int)),
        decreases s@.len() - i,
    {
        proof {
            assert(sv.take(i + 1).drop_last() =~= sv.take(i as int));
            assert(sv.take(i + 1).last() == sv[i as int]);
        }
        let k = v.len();
        let dup = k > 0 && v[k - 1].ssid == s[i].ssid;
        if !dup {
            let n = s[i].copy();
            let ghost before = v.deep_view();
            v.push(n);
            assert(v.deep_view() =~= before.push(n.deep_view()));
        }
        i += 1;
    }
    assert(sv.take(sv.len() as int) =~= sv);
    v
}

fn output_networks_of(out: &[char]) -> (v: Vec<WifiNetwork>)
    ensures
        v.deep_view() == output_networks(out@),
{
    let ls = lines_of(out);
    let ghost lv = seqs(ls@);
    let ghost f = |l: Seq<char>| line_network(l);
    let mut found: Vec<WifiNetwork> = Vec::new();
    let mut i: usize = 0;
    while i < ls.len()
        invariant
            lv == seqs(ls@),
            lv == lines(out@),
            f == (|l: Seq<char>| line_network(l)),
            i <= ls@.len(),
            found.deep_view() == lv.take(i as int).filter_map(f),
        decreases ls@.len() - i,
    {
        proof {
            lv.lemma_filter_map_take_succ(f, i as int);
        }
        let parsed = parse_line_chars(ls[i].as_slice());
        match parsed {
            Some(n) => {
                let ghost before = found.deep_view();
                found.push(n);
                assert(found.deep_view() =~= before + seq![n.deep_view()]);
            },
            None => {
                assert(lv.take(i + 1).filter_map(f) =~= lv.take(i as int).filter_map(f));
            },
        }
        i += 1;
    }
    assert(lv.take(lv.len() as int) =~= lv);
    let sorted = sorted_by_signal(&found);
    dedup_by_ssid(&sorted)
}

/// Reads the whole WiFi list; this never fails.
pub fn parse_wifi_output(output: &str) -> (r: Result<Vec<WifiNetwork>, String>)
    ensures
        r matches Ok(v) && v.deep_view() == output_networks(output@),
{
    let oc = chars_of(output);
    Ok(output_networks_of(oc.as_slice()))
}

// ---------------------------------------------------------------------------
// Saved WiFi profiles
// ---------------------------------------------------------------------------

/// `nmcli -t -f NAME,TYPE connection show`
pub open spec fn profile_names_args() -> Seq<Seq<char>> {
    seq!["-t"@, "-f"@, "NAME,TYPE"@, "connection"@, "show"@]
}

/// A profile of type `wifi`.
pub open spec fn wifi_row() -> spec_fn(Seq<Seq<char>>) -> bool {
    |p: Seq<Seq<char>>| piece(p, 1) == "wifi"@
}

/// The WiFi profiles of the profile table.
pub open spec fn wifi_profile_rows(out: Seq<char>) -> Seq<Seq<Seq<char>>> {
    split_rows(lines(out), 2).filter(wifi_row())
}

/// Reading the SSIDs of the WiFi profiles from row `i` on, one query per
/// row after reply `base`; each query must succeed, and a non-empty SSID
/// maps to the profile's name (a later profile wins).
pub open spec fn profiles_fold(
    rows: Seq<Seq<Seq<char>>>,
    rs: Seq<Reply>,
    base: int,
    i: int,
    acc: Map<Seq<char>, Seq<char>>,
) -> (StepView<Map<Seq<char>, Seq<char>>, Seq<char>>, int)
    decreases rows.len() - i,
{
    if i < 0 || i >= rows.len() {
        (StepView::Done(Ok(acc)), base + i)
    } else if base + i >= rs.len() {
        (StepView::Run(profile_ssid_args(piece(rows[i], 0))), rs.len() as int)
    } else {
        match text_outcome(rs[base + i]) {
            Err(e) => (StepView::Done(Err(e)), base + i + 1),
            Ok(ssid) => profiles_fold(
                rows,
                rs,
                base,
                i + 1,
                if ssid.len() > 0 {
                    acc.insert(ssid, piece(rows[i], 0))
                } else {
                    acc
                },
            ),
        }
    }
}

/// The saved WiFi profiles by SSID, from reply `at` on.
pub open spec fn saved_profiles_at(rs: Seq<Reply>, at: int) -> (StepView<Map<Seq<char>, Seq<char>>, Seq<char>>, int) {
    if at >= rs.len() {
        (StepView::Run(profile_names_args()), at)
    } else {
        match text_outcome(rs[at]) {
            Err(e) => (StepView::Done(Err(e)), at + 1),
            Ok(out) => profiles_fold(wifi_profile_rows(out), rs, at + 1, 0, Map::empty()),
        }
    }
}

fn args_profile_names() -> (s: Vec<String>)
    ensures
        strs(s@) == profile_names_args(),
{
    let v = vec![lit("-t"), lit("-f"), lit("NAME,TYPE"), lit("connection"), lit("show")];
    assert(strs(v@) =~= profile_names_args());
    v
}

/// The saved WiFi profiles, as (SSID, name) pairs in the order read.
pub(crate) fn saved_wifi_profiles(rs: &[Reply], at: usize) -> (r: (Step<Vec<(Vec<char>, Vec<char>)>, String>, usize))
    ensures
        match (r.0, saved_profiles_at(rs@, at as int).0) {
            (Step::Run(a), StepView::Run(b)) => strs(a@) == b,
            (Step::Done(Ok(a)), StepView::Done(Ok(b))) => pairs_map(pairs_view(a@)) == b,
            (Step::Done(Err(a)), StepView::Done(Err(b))) => a@ == b,
            _ => false,
        },
        r.1 == saved_profiles_at(rs@, at as int).1,
{
    if at >= rs.len() {
        return (Step::Run(args_profile_names()), at);
    }
    let out = match text_outcome_of(&rs[at]) {
        Err(e) => {
            return (Step::Done(Err(e)), at + 1);
        },
        Ok(out) => out,
    };
    let ls = lines_of(out.as_slice());
    let all = rows_of_lines(&ls, 2);
    let ghost av = rows_of(all@);
    let ghost rows = wifi_profile_rows(out@);
    let mut wifi: Vec<Vec<Vec<char>>> = Vec::new();
    let mut j: usize = 0;
    while j < all.len()
        invariant
            av == rows_of(all@),
            av == split_rows(lines(out@), 2),
            j <= all@.len(),
            rows_of(wifi@) == av.take(j as int).filter(wifi_row()),
        decreases all@.len() - j,
    {
        proof {
            lemma_filter_take_next(av, wifi_row(), j as int);
        }
        let t = piece_of(&all[j], 1);
        if eq_str(t.as_slice(), "wifi") {
            let ghost before = wifi@;
            let row = crate::text::rows_copy(&all[j]);
            wifi.push(row);
            assert(rows_of(wifi@) =~= rows_of(before).push(seqs(row@)));
        }
        j += 1;
    }
    assert(av.take(av.len() as int) =~= av);
    let ghost wv = rows_of(wifi@);
    let mut pairs: Vec<(Vec<char>, Vec<char>)> = Vec::new();
    let mut i: usize = 0;
    let mut next: usize = at + 1;
    while i < wifi.len()
        invariant
            wv == rows_of(wifi@),
            wv == rows,
            at < rs@.len(),
            next == at + 1 + i,
            next <= rs@.len(),
            i <= wifi@.len(),
            saved_profiles_at(rs@, at as int) == profiles_fold(rows, rs@, at + 1, i as int, pairs_map(pairs_view(pairs@))),
        decreases wifi@.len() - i,
    {
        let name = piece_of(&wifi[i], 0);
        assert(name@ == piece(rows[i as int], 0));
        if next >= rs.len() {
            let v = crate::nm::cli::args_profile_ssid(name.as_slice());
            return (Step::Run(v), rs.len());
        }
        let ssid = match text_outcome_of(&rs[next]) {
            Err(e) => {
                return (Step::Done(Err(e)), next + 1);
            },
            Ok(s) => s,
        };
        if ssid.len() > 0 {
            let ghost before = pairs_view(pairs@);
            pairs.push((ssid, name));
            proof {
                assert(pairs_view(pairs@) =~= before.push((ssid@, name@)));
                assert(pairs_view(pairs@).drop_last() =~= before);
            }
        }
        i += 1;
        next += 1;
    }
    (Step::Done(Ok(pairs)), next)
}

// ---------------------------------------------------------------------------
// Listing and connecting
// ---------------------------------------------------------------------------

/// The networks of the WiFi list, each marked saved when a saved profile has
/// its SSID.
pub open spec fn mark_saved(nets: Seq<WifiView>, saved: Map<Seq<char>, Seq<char>>) -> Seq<WifiView> {
    nets.map_values(
        |n: WifiView|
            WifiView {
                ssid: n.ssid,
                signal: n.signal,
                security: n.security,
                in_use: n.in_use,
                bssid: n.bssid,
                saved: saved.contains_key(n.ssid),
            },
    )
}

/// Listing the WiFi networks from reply `at` on: the saved profiles, then
/// the WiFi list (both must be read).
pub open spec fn list_wifi_at(rs: Seq<Reply>, at: int) -> StepView<Seq<WifiView>, Seq<char>> {
    let (p, k) = saved_profiles_at(rs, at);
    match p {
        StepView::Run(a) => StepView::Run(a),
        StepView::Done(Err(e)) => StepView::Done(Err(e)),
        StepView::Done(Ok(saved)) => if k >= rs.len() {
            StepView::Run(wifi_list_args())
        } else {
            match text_outcome(rs[k]) {
                Err(e) => StepView::Done(Err(e)),
                Ok(out) => StepView::Done(Ok(mark_saved(output_networks(out), saved))),
            }
        },
    }
}

fn list_wifi_from(rs: &[Reply], at: usize) -> (step: Step<Vec<WifiNetwork>, String>)
    ensures
        step.deep_view() == list_wifi_at(rs@, at as int),
{
    let (p, k) = saved_wifi_profiles(rs, at);
    let pairs = match p {
        Step::Run(a) => {
            return Step::Run(a);
        },
        Step::Done(Err(e)) => {
            return Step::Done(Err(e));
        },
        Step::Done(Ok(pairs)) => pairs,
    };
    if k >= rs.len() {
        return Step::Run(crate::nm::cli::args_wifi_list());
    }
    let out = match text_outcome_of(&rs[k]) {
        Err(e) => {
            return Step::Done(Err(e));
        },
        Ok(out) => out,
    };
    let nets = output_networks_of(out.as_slice());
    let ghost saved = pairs_map(pairs_view(pairs@));
    let mut marked: Vec<WifiNetwork> = Vec::new();
    let mut i: usize = 0;
    while i < nets.len()
        invariant
            saved == pairs_map(pairs_view(pairs@)),
            i <= nets@.len(),
            marked.deep_view() == mark_saved(nets.deep_view(), saved).take(i as int),
        decreases nets@.len() - i,
    {
        let mut n = nets[i].copy();
        let sc = chars_of(n.ssid.as_str());
        let found = lookup(&pairs, sc.as_slice());
        n.saved = found.is_some();
        let ghost before = marked.deep_view();
        marked.push(n);
        i += 1;
        proof {
            assert(nets.deep_view()[i - 1] == nets@[i - 1].deep_view());
            assert(marked.deep_view() =~= before.push(n.deep_view()));
            assert(marked.deep_view() =~= mark_saved(nets.deep_view(), saved).take(i as int));
        }
    }
    assert(mark_saved(nets.deep_view(), saved).take(nets@.len() as int) =~= mark_saved(nets.deep_view(), saved));
    Step::Done(Ok(marked))
}

/// The WiFi networks in range, strongest signal first, each marked saved
/// when a saved profile has its SSID.
pub fn list_wifi(replies: &[Reply]) -> (step: Step<Vec<WifiNetwork>, String>)
    ensures
        step.deep_view() == list_wifi_at(replies@, 0),
{
    list_wifi_from(replies, 0)
}

/// Rescanning (which must succeed), then listing.
pub open spec fn scan_wifi_at(rs: Seq<Reply>) -> StepView<Seq<WifiView>, Seq<char>> {
    match unit_at(rescan_args(), rs, 0).0 {
        StepView::Run(a) => StepView::Run(a),
        StepView::Done(Err(e)) => StepView::Done(Err(e)),
        StepView::Done(Ok(())) => list_wifi_at(rs, 1),
    }
}

/// Rescans for WiFi networks, then lists them.
pub fn scan_wifi(replies: &[Reply]) -> (step: Step<Vec<WifiNetwork>, String>)
    ensures
        step.deep_view() == scan_wifi_at(replies@),
{
    let v = crate::nm::cli::args_rescan();
    match unit_steps(v, replies, 0).0 {
        Step::Run(a) => Step::Run(a),
        Step::Done(Err(e)) => Step::Done(Err(e)),
        Step::Done(Ok(())) => list_wifi_from(replies, 1),
    }
}

/// The WiFi networks that the front end asks for: after a rescan where
/// `rescan` is `Some(true)`, else without one.
pub fn fetch_wifi_networks(rescan: Option<bool>, replies: &[Reply]) -> (step: Step<Vec<WifiNetwork>, String>)
    ensures
        step.deep_view() == (if rescan == Some(true) {
            scan_wifi_at(replies@)
        } else {
            list_wifi_at(replies@, 0)
        }),
{
    let should_rescan = match rescan {
        Some(r) => r,
        None => false,
    };
    if should_rescan {
        scan_wifi(replies)
    } else {
        list_wifi(replies)
    }
}

/// Connecting to `ssid`: with a password that is not empty, a connect
/// command that carries it; else, where a saved profile has the SSID, that
/// profile brought up by name with no password; else a connect command
/// without one.
pub open spec fn connect_wifi_at(ssid: Seq<char>, password: Option<Seq<char>>, rs: Seq<Reply>) -> StepView<(), Seq<char>> {
    match password {
        Some(p) if p.len() > 0 => unit_at(connect_password_args(ssid, p), rs, 0).0,
        _ => {
            let (m, k) = saved_profiles_at(rs, 0);
            match m {
                StepView::Run(a) => StepView::Run(a),
                StepView::Done(Err(e)) => StepView::Done(Err(e)),
                StepView::Done(Ok(saved)) => if saved.contains_key(ssid) {
                    unit_at(up_args(saved[ssid]), rs, k).0
                } else {
                    unit_at(connect_args(ssid), rs, k).0
                },
            }
        },
    }
}

/// Connects to the WiFi network `ssid`.
pub fn connect_wifi(ssid: &str, password: Option<&str>, replies: &[Reply]) -> (step: Step<(), String>)
    ensures
        step.deep_view() == connect_wifi_at(ssid@, password_view(password), replies@),
{
    let s = chars_of(ssid);
    match password {
        Some(p) => {
            let pc = chars_of(p);
            if pc.len() > 0 {
                let v = vec![lit("device"), lit("wifi"), lit("connect"), string_of(s.as_slice()), lit("password"), string_of(pc.as_slice())];
                assert(strs(v@) =~= connect_password_args(s@, pc@));
                return unit_steps(v, replies, 0).0;
            }
        },
        None => {},
    }
    let (m, k) = saved_wifi_profiles(replies, 0);
    match m {
        Step::Run(a) => Step::Run(a),
        Step::Done(Err(e)) => Step::Done(Err(e)),
        Step::Done(Ok(pairs)) => {
            match lookup(&pairs, s.as_slice()) {
                Some(name) => unit_steps(crate::nm::cli::up_arg_list(name.as_slice()), replies, k).0,
                None => {
                    let v = vec![lit("device"), lit("wifi"), lit("connect"), string_of(s.as_slice())];
                    assert(strs(v@) =~= connect_args(s@));
                    unit_steps(v, replies, k).0
                },
            }
        },
    }
}

} // verus!
