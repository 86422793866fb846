//! Reading and writing the settings of a connection profile.
use vstd::prelude::*;
use crate::text::{
    chars_of, contains_str, decimal_chars, eq_str, lit, parse_u32_chars, parse_unsigned,
    replace_char, replace_char_chars, string_of,
};
use crate::nm::reply::{Reply, Step, StepView, strs};
use crate::nm::cli::{
    autoconnect_setting, get_args, ipv4_settings, mtu_args, push_autoconnect, push_chars,
    push_ipv4_settings, push_lit, push_setting_if_set, setting_if_set,
};
use crate::web::nm::types::{
    ConnectionDetails, DetailsView, Ipv4Config, Ipv4View, Ipv6Config, Ipv6View,
};
use crate::web::nm::run::{text_or_empty, text_or_empty_of, text_outcome, text_outcome_of, unit_at, unit_steps};

verus! {

/// The settings read, in order, for the details of a profile.
pub open spec fn detail_fields() -> Seq<Seq<char>> {
    seq![
        "connection.id"@,
        "connection.type"@,
        "GENERAL.DEVICES"@,
        "connection.autoconnect"@,
        "ipv4.method"@,
        "ipv4.addresses"@,
        "ipv4.gateway"@,
        "ipv4.dns"@,
        "ipv6.method"@,
        "ipv6.addresses"@,
        "ipv6.gateway"@,
        "ipv6.dns"@,
        "802-11-wireless.mtu"@,
    ]
}

/// The settings whose queries must succeed: the name, the type, and the
/// two methods.
pub open spec fn is_required_field(i: int) -> bool {
    i == 0 || i == 1 || i == 4 || i == 8
}

/// The first reply from `i` on, among the first 13, of a required setting
/// whose query failed.
pub open spec fn first_failure(rs: Seq<Reply>, i: int) -> Option<int>
    decreases 13 - i,
{
    if i < 0 || i >= 13 || i >= rs.len() {
        None
    } else if is_required_field(i) && text_outcome(rs[i]) is Err {
        Some(i)
    } else {
        first_failure(rs, i + 1)
    }
}

/// The MTU that a run prints, where it prints a number that fits in 32 bits.
pub open spec fn mtu_text(r: Reply) -> Option<u32> {
    match text_outcome(r) {
        Ok(v) => match parse_unsigned(v, u32::MAX as nat) {
            Some(n) => Some(n as u32),
            None => None,
        },
        Err(_) => None,
    }
}

/// The details built from the replies.
pub open spec fn details_of(uuid: Seq<char>, rs: Seq<Reply>) -> DetailsView {
    let mtu = if mtu_text(rs[12]) is Some {
        mtu_text(rs[12])
    } else {
        mtu_text(rs[13])
    };
    DetailsView {
        uuid,
        name: text_or_empty(rs[0]),
        connection_type: text_or_empty(rs[1]),
        device: text_or_empty(rs[2]),
        ipv4: Ipv4View {
            method: text_or_empty(rs[4]),
            addresses: text_or_empty(rs[5]),
            gateway: text_or_empty(rs[6]),
            dns: replace_char(text_or_empty(rs[7]), ',', ' '),
            mtu,
        },
        ipv6: Ipv6View {
            method: text_or_empty(rs[8]),
            addresses: text_or_empty(rs[9]),
            gateway: text_or_empty(rs[10]),
            dns: replace_char(text_or_empty(rs[11]), ',', ' '),
        },
        mtu,
        autoconnect: match text_outcome(rs[3]) {
            Ok(v) => v == "yes"@,
            Err(_) => true,
        },
    }
}

/// Reading the details of `uuid`: one query per setting of
/// [`detail_fields`], then, where the WiFi MTU gives no number, the ethernet
/// MTU; the first failed query of a required setting ends the request with
/// its error; the others read as empty (the DNS lists with their commas made
/// spaces, autoconnect as on).
pub open spec fn details_at(uuid: Seq<char>, rs: Seq<Reply>) -> StepView<DetailsView, Seq<char>> {
    match first_failure(rs, 0) {
        Some(k) => StepView::Done(Err(text_outcome(rs[k])->Err_0)),
        None => if rs.len() < 13 {
            StepView::Run(get_args(detail_fields()[rs.len() as int], uuid))
        } else if mtu_text(rs[12]) is None && rs.len() == 13 {
            StepView::Run(get_args("ethernet.mtu"@, uuid))
        } else {
            StepView::Done(Ok(details_of(uuid, rs)))
        },
    }
}

fn detail_field(i: usize) -> (f: &'static str)
    requires
        i < 13,
    ensures
        f@ == detail_fields()[i as int],
{
    if i == 0 {
        "connection.id"
    } else if i == 1 {
        "connection.type"
    } else if i == 2 {
        "GENERAL.DEVICES"
    } else if i == 3 {
        "connection.autoconnect"
    } else if i == 4 {
        "ipv4.method"
    } else if i == 5 {
        "ipv4.addresses"
    } else if i == 6 {
        "ipv4.gateway"
    } else if i == 7 {
        "ipv4.dns"
    } else if i == 8 {
        "ipv6.method"
    } else if i == 9 {
        "ipv6.addresses"
    } else if i == 10 {
        "ipv6.gateway"
    } else if i == 11 {
        "ipv6.dns"
    } else {
        "802-11-wireless.mtu"
    }
}

fn mtu_text_of(r: &Reply) -> (m: Option<u32>)
    ensures
        m == mtu_text(*r),
{
    match text_outcome_of(r) {
        Ok(v) => parse_u32_chars(v.as_slice()),
        Err(_) => None,
    }
}

fn text_of(r: &Reply) -> (s: String)
    ensures
        s@ == text_or_empty(*r),
{
    let v = text_or_empty_of(r);
    string_of(v.as_slice())
}

fn dns_of(r: &Reply) -> (s: String)
    ensures
        s@ == replace_char(text_or_empty(*r), ',', ' '),
{
    let v = text_or_empty_of(r);
    let d = replace_char_chars(v.as_slice(), ',', ' ');
    string_of(d.as_slice())
}

/// The settings of the profile `uuid`.
pub fn get_connection_details(uuid: &str, replies: &[Reply]) -> (step: Step<ConnectionDetails, String>)
    ensures
        step.deep_view() == details_at(uuid@, replies@),
{
    let u = chars_of(uuid);
    let n = replies.len();
    let mut i: usize = 0;
    while i < n && i < 13
        invariant
            n == replies@.len(),
            i <= 13,
            first_failure(replies@, 0) == first_failure(replies@, i as int),
        decreases 13 - i,
    {
        if i == 0 || i == 1 || i == 4 || i == 8 {
            match text_outcome_of(&replies[i]) {
                Err(e) => {
                    return Step::Done(Err(e));
                },
                Ok(_) => {},
            }
        }
        i += 1;
    }
    if n < 13 {
        let f = detail_field(n);
        let v = vec![lit("-g"), lit(f), lit("connection"), lit("show"), string_of(u.as_slice())];
        assert(strs(v@) =~= get_args(detail_fields()[n as int], uuid@));
        return Step::Run(v);
    }
    let wifi_mtu = mtu_text_of(&replies[12]);
    if wifi_mtu.is_none() && n == 13 {
        let v = vec![lit("-g"), lit("ethernet.mtu"), lit("connection"), lit("show"), string_of(u.as_slice())];
        assert(strs(v@) =~= get_args("ethernet.mtu"@, uuid@));
        return Step::Run(v);
    }
    let mtu = match wifi_mtu {
        Some(m) => Some(m),
        None => mtu_text_of(&replies[13]),
    };
    let autoconnect = match text_outcome_of(&replies[3]) {
        Ok(v) => eq_str(v.as_slice(), "yes"),
        Err(_) => true,
    };
    Step::Done(
        Ok(
            ConnectionDetails {
                uuid: string_of(u.as_slice()),
                name: text_of(&replies[0]),
                connection_type: text_of(&replies[1]),
                device: text_of(&replies[2]),
                ipv4: Ipv4Config {
                    method: text_of(&replies[4]),
                    addresses: text_of(&replies[5]),
                    gateway: text_of(&replies[6]),
                    dns: dns_of(&replies[7]),
                    mtu,
                },
                ipv6: Ipv6Config {
                    method: text_of(&replies[8]),
                    addresses: text_of(&replies[9]),
                    gateway: text_of(&replies[10]),
                    dns: dns_of(&replies[11]),
                },
                mtu,
                autoconnect,
            },
        ),
    )
}

/// The IPv6 settings of a `modify` command: the method (`manual`,
/// `disabled`, or else `auto`); for `manual` the addresses, gateway and DNS
/// servers that are not empty (the DNS list with its spaces made commas).
pub open spec fn ipv6_settings(v6: Ipv6View) -> Seq<Seq<char>> {
    if v6.method == "manual"@ {
        seq!["ipv6.method"@, "manual"@] + setting_if_set("ipv6.addresses"@, v6.addresses) + setting_if_set(
            "ipv6.gateway"@,
            v6.gateway,
        ) + setting_if_set("ipv6.dns"@, replace_char(v6.dns, ' ', ','))
    } else if v6.method == "disabled"@ {
        seq!["ipv6.method"@, "disabled"@]
    } else {
        seq!["ipv6.method"@, "auto"@]
    }
}

/// The settings that `nmcli connection modify` gets, the MTU aside.
pub open spec fn update_args(uuid: Seq<char>, v4: Ipv4View, v6: Ipv6View, autoconnect: bool) -> Seq<Seq<char>> {
    seq!["connection"@, "modify"@, uuid] + ipv4_settings(v4.method, v4.addresses, v4.gateway, v4.dns)
        + ipv6_settings(v6) + autoconnect_setting(autoconnect)
}

/// Writing the settings of `uuid`: with an MTU, the profile's type is asked
/// first (that query must succeed), to name the MTU setting; then one
/// `modify` command carries all the settings.
pub open spec fn update_at(
    uuid: Seq<char>,
    v4: Ipv4View,
    v6: Ipv6View,
    mtu: Option<u32>,
    autoconnect: bool,
    rs: Seq<Reply>,
) -> StepView<(), Seq<char>> {
    match mtu {
        None => unit_at(update_args(uuid, v4, v6, autoconnect), rs, 0).0,
        Some(m) => if rs.len() == 0 {
            StepView::Run(get_args("connection.type"@, uuid))
        } else {
            match text_outcome(rs[0]) {
                Err(e) => StepView::Done(Err(e)),
                Ok(t) => unit_at(update_args(uuid, v4, v6, autoconnect) + mtu_args(t, m), rs, 1).0,
            }
        },
    }
}

fn push_ipv6_settings(v: &mut Vec<String>, v6: &Ipv6Config)
    ensures
        strs(final(v)@) == strs(old(v)@) + ipv6_settings(v6.deep_view()),
{
    let m = chars_of(v6.method.as_str());
    if eq_str(m.as_slice(), "manual") {
        push_lit(v, "ipv6.method");
        push_lit(v, "manual");
        let ac = chars_of(v6.addresses.as_str());
        push_setting_if_set(v, "ipv6.addresses", ac.as_slice());
        let gc = chars_of(v6.gateway.as_str());
        push_setting_if_set(v, "ipv6.gateway", gc.as_slice());
        let dc = chars_of(v6.dns.as_str());
        let d = replace_char_chars(dc.as_slice(), ' ', ',');
        push_setting_if_set(v, "ipv6.dns", d.as_slice());
    } else if eq_str(m.as_slice(), "disabled") {
        push_lit(v, "ipv6.method");
        push_lit(v, "disabled");
    } else {
        push_lit(v, "ipv6.method");
        push_lit(v, "auto");
    }
    assert(strs(v@) =~= strs(old(v)@) + ipv6_settings(v6.deep_view()));
}

/// Writes the settings of the profile `uuid`.
pub fn update_connection(
    uuid: &str,
    ipv4: Ipv4Config,
    ipv6: Ipv6Config,
    mtu: Option<u32>,
    autoconnect: bool,
    replies: &[Reply],
) -> (step: Step<(), String>)
    ensures
        step.deep_view() == update_at(uuid@, ipv4.deep_view(), ipv6.deep_view(), mtu, autoconnect, replies@),
{
    let u = chars_of(uuid);
    let mut args: Vec<String> = Vec::new();
    push_lit(&mut args, "connection");
    push_lit(&mut args, "modify");
    push_chars(&mut args, u.as_slice());
    push_ipv4_settings(&mut args, &ipv4.method, &ipv4.addresses, &ipv4.gateway, &ipv4.dns);
    push_ipv6_settings(&mut args, &ipv6);
    push_autoconnect(&mut args, autoconnect);
    assert(strs(args@) =~= update_args(uuid@, ipv4.deep_view(), ipv6.deep_view(), autoconnect));
    match mtu {
        None => unit_steps(args, replies, 0).0,
        Some(m) => {
            if replies.len() == 0 {
                let v = vec![lit("-g"), lit("connection.type"), lit("connection"), lit("show"), string_of(u.as_slice())];
                assert(strs(v@) =~= get_args("connection.type"@, uuid@));
                return Step::Run(v);
            }
            match text_outcome_of(&replies[0]) {
                Err(e) => Step::Done(Err(e)),
                Ok(t) => {
                    let ghost base = strs(args@);
                    if contains_str(t.as_slice(), "wireless") {
                        push_lit(&mut args, "802-11-wireless.mtu");
                    } else {
                        push_lit(&mut args, "ethernet.mtu");
                    }
                    let d = decimal_chars(m);
                    push_chars(&mut args, d.as_slice());
                    assert(strs(args@) =~= base + mtu_args(t@, m));
                    unit_steps(args, replies, 1).0
                },
            }
        },
    }
}

} // verus!
