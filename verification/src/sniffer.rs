//! Resource capture: reading what macOS tools print, and the bookkeeping of
//! the system proxy that capture switches on and off.
use vstd::prelude::*;
use crate::text::{
    after_last_slash, after_last_slash_exec, before_stop, before_stop_exec, char_to_uppercase,
    chars_of, contains, contains_str, eq_ignore_ascii_case, eq_ignore_ascii_case_exec, find,
    find_str, lines, lowercase, parse_unsigned, parse_unsigned_exec, push_all, push_str,
    slice_of, split_lines, starts_with, seq_eq, starts_with_str, str_eq, string_of,
    to_lowercase, trim, trim_start, trim_start_vec, trim_vec, uppercase,
};

verus! {

// ---------------------------------------------------------------------------
// TUN-mode proxies
// ---------------------------------------------------------------------------

/// The destination of a routing-table line: its first word, without a
/// `/<length>` suffix.
pub open spec fn route_destination(line: Seq<char>) -> Seq<char> {
    before_stop(trim_start(line), seq!['/'], true)
}

/// Whether a routing-table line is a route into the fake-ip range
/// (198.18.0.0/15) that TUN-mode proxies install: its destination is
/// `198.18` or `198.19`, or an address or network inside them.
pub open spec fn is_fake_ip_route_line(line: Seq<char>) -> bool {
    let d = route_destination(line);
    d == "198.18"@ || d == "198.19"@ || starts_with(d, "198.18."@) || starts_with(d, "198.19."@)
}

/// `netstat -rn` output holds a fake-ip route.
pub open spec fn fake_ip_route_in_netstat_spec(output: Seq<char>) -> bool {
    exists|k: int| 0 <= k < lines(output).len() && is_fake_ip_route_line(#[trigger] lines(output)[k])
}

pub fn fake_ip_route_in_netstat(netstat_output: &str) -> (r: bool)
    ensures
        r == fake_ip_route_in_netstat_spec(netstat_output@),
{
    let v = chars_of(netstat_output);
    let ls = split_lines(&v);
    let mut i: usize = 0;
    while i < ls.len()
        invariant
            i <= ls.len(),
            ls.deep_view() == lines(netstat_output@),
            forall|k: int| 0 <= k < i ==> !is_fake_ip_route_line(#[trigger] lines(netstat_output@)[k]),
        decreases ls.len() - i,
    {
        let t = trim_start_vec(&ls[i]);
        proof {
            crate::text::lemma_deep_view_chars(&ls[i as int]);
            assert(ls.deep_view()[i as int] == ls@[i as int]@);
        }
        let slash = vec!['/'];
        proof {
            assert(slash@ =~= seq!['/']);
        }
        let d = before_stop_exec(&t, &slash, true);
        if str_eq(&d, "198.18") || str_eq(&d, "198.19") || starts_with_str(&d, "198.18.")
            || starts_with_str(&d, "198.19.") {
            return true;
        }
        i += 1;
    }
    false
}

/// The lower-cased executable name of a `ps -axo comm=` line.
pub open spec fn ps_name(line: Seq<char>) -> Seq<char> {
    lowercase(after_last_slash(trim(line)))
}

/// Names of proxy tools that offer a TUN mode.
pub open spec fn is_tun_tool_name(n: Seq<char>) -> bool {
    n.len() > 0 && (starts_with(n, "clash"@) || contains(n, "mihomo"@) || contains(n, "verge"@)
        || contains(n, "surge"@) || contains(n, "sing-box"@) || contains(n, "singbox"@) || contains(
        n,
        "v2ray"@,
    ) || contains(n, "xray"@) || contains(n, "shadowsocks"@) || contains(n, "ss-local"@)
        || contains(n, "trojan"@) || contains(n, "quantumult"@) || contains(n, "stash"@)
        || contains(n, "karing"@) || contains(n, "hiddify"@) || contains(n, "loon"@))
}

/// The names of the proxy tools among the process lines, in order.
pub open spec fn tun_candidates(ls: Seq<Seq<char>>) -> Seq<Seq<char>>
    decreases ls.len(),
{
    if ls.len() == 0 {
        Seq::empty()
    } else if is_tun_tool_name(ps_name(ls.last())) {
        tun_candidates(ls.drop_last()).push(ps_name(ls.last()))
    } else {
        tun_candidates(ls.drop_last())
    }
}

/// The names that are not background services.
pub open spec fn without_service(c: Seq<Seq<char>>) -> Seq<Seq<char>>
    decreases c.len(),
{
    if c.len() == 0 {
        Seq::empty()
    } else if !contains(c.last(), "service"@) {
        without_service(c.drop_last()).push(c.last())
    } else {
        without_service(c.drop_last())
    }
}

/// The first proxy tool found, preferring non-service processes when there
/// are several, with its first character upper-cased.
pub open spec fn tun_proxy_name_spec(ps_output: Seq<char>) -> Option<Seq<char>> {
    let c = tun_candidates(lines(ps_output));
    let d = if c.len() > 1 {
        without_service(c)
    } else {
        c
    };
    if d.len() == 0 {
        None
    } else {
        Some(uppercase(d[0][0]) + d[0].skip(1))
    }
}

fn is_tun_tool_name_exec(n: &Vec<char>) -> (r: bool)
    ensures
        r == is_tun_tool_name(n@),
{
    n.len() > 0 && (starts_with_str(n, "clash") || contains_str(n, "mihomo") || contains_str(
        n,
        "verge",
    ) || contains_str(n, "surge") || contains_str(n, "sing-box") || contains_str(n, "singbox")
        || contains_str(n, "v2ray") || contains_str(n, "xray") || contains_str(n, "shadowsocks")
        || contains_str(n, "ss-local") || contains_str(n, "trojan") || contains_str(
        n,
        "quantumult",
    ) || contains_str(n, "stash") || contains_str(n, "karing") || contains_str(n, "hiddify")
        || contains_str(n, "loon"))
}

pub fn tun_proxy_name_from_ps(ps_output: &str) -> (r: Option<String>)
    ensures
        match tun_proxy_name_spec(ps_output@) {
            Some(n) => r is Some && r->0@ == n,
            None => r is None,
        },
{
    let v = chars_of(ps_output);
    let ls = split_lines(&v);
    let mut cands: Vec<Vec<char>> = Vec::new();
    let mut i: usize = 0;
    while i < ls.len()
        invariant
            i <= ls.len(),
            ls.deep_view() == lines(ps_output@),
            cands.deep_view() == tun_candidates(ls.deep_view().take(i as int)),
        decreases ls.len() - i,
    {
        let t = trim_vec(&ls[i]);
        let base = after_last_slash_exec(&t);
        let lowered = to_lowercase(string_of(base.as_slice()).as_str());
        let name = chars_of(lowered.as_str());
        proof {
            crate::text::lemma_deep_view_chars(&ls[i as int]);
            crate::text::lemma_deep_view_chars(&name);
            let p = ls.deep_view().take(i + 1);
            assert(p.drop_last() == ls.deep_view().take(i as int));
            assert(p.last() == ls@[i as int]@);
            assert(name@ == ps_name(p.last()));
        }
        let ghost before = cands.deep_view();
        if is_tun_tool_name_exec(&name) {
            cands.push(name);
            proof {
                assert(cands.deep_view() =~= before.push(name@));
            }
        }
        i += 1;
    }
    assert(ls.deep_view().take(ls.len() as int) == ls.deep_view());
    let chosen: Vec<Vec<char>> = if cands.len() > 1 {
        let mut d: Vec<Vec<char>> = Vec::new();
        let mut j: usize = 0;
        while j < cands.len()
            invariant
                j <= cands.len(),
                d.deep_view() == without_service(cands.deep_view().take(j as int)),
            decreases cands.len() - j,
        {
            let ghost before = d.deep_view();
            proof {
                crate::text::lemma_deep_view_chars(&cands[j as int]);
                let p = cands.deep_view().take(j + 1);
                assert(p.drop_last() == cands.deep_view().take(j as int));
                assert(p.last() == cands@[j as int]@);
            }
            if !contains_str(&cands[j], "service") {
                d.push(cands[j].clone());
                proof {
                    assert(d.deep_view() =~= before.push(cands@[j as int]@));
                }
            }
            j += 1;
        }
        assert(cands.deep_view().take(cands.len() as int) == cands.deep_view());
        d
    } else {
        cands
    };
    if chosen.len() == 0 {
        return None;
    }
    let first = &chosen[0];
    proof {
        crate::text::lemma_deep_view_chars(first);
        assert(chosen.deep_view()[0] == first@);
    }
    if first.len() == 0 {
        proof {
            assert(false) by {
                lemma_candidates_nonempty(lines(ps_output@));
                lemma_without_service_sub(tun_candidates(lines(ps_output@)));
            }
        }
        return None;
    }
    let up = char_to_uppercase(first[0]);
    let mut out = chars_of(up.as_str());
    let rest = slice_of(first, 1, first.len());
    push_all(&mut out, &rest);
    Some(string_of(out.as_slice()))
}

proof fn lemma_candidates_nonempty(ls: Seq<Seq<char>>)
    ensures
        forall|k: int| 0 <= k < tun_candidates(ls).len() ==> (#[trigger] tun_candidates(ls)[k]).len()
            > 0,
    decreases ls.len(),
{
    if ls.len() > 0 {
        lemma_candidates_nonempty(ls.drop_last());
        let r = tun_candidates(ls.drop_last());
        if is_tun_tool_name(ps_name(ls.last())) {
            assert forall|k: int| 0 <= k < tun_candidates(ls).len() implies (
            #[trigger] tun_candidates(ls)[k]).len() > 0 by {
                if k < r.len() {
                    assert(tun_candidates(ls)[k] == r[k]);
                }
            }
        }
    }
}

proof fn lemma_without_service_sub(c: Seq<Seq<char>>)
    requires
        forall|k: int| 0 <= k < c.len() ==> (#[trigger] c[k]).len() > 0,
    ensures
        forall|k: int| 0 <= k < without_service(c).len() ==> (#[trigger] without_service(c)[k]).len()
            > 0,
    decreases c.len(),
{
    if c.len() > 0 {
        assert forall|k: int| 0 <= k < c.drop_last().len() implies (
        #[trigger] c.drop_last()[k]).len() > 0 by {
            assert(c.drop_last()[k] == c[k]);
        }
        lemma_without_service_sub(c.drop_last());
        let r = without_service(c.drop_last());
        if !contains(c.last(), "service"@) {
            assert(c.last() == c[c.len() - 1]);
            assert forall|k: int| 0 <= k < without_service(c).len() implies (
            #[trigger] without_service(c)[k]).len() > 0 by {
                if k < r.len() {
                    assert(without_service(c)[k] == r[k]);
                }
            }
        }
    }
}

// ---------------------------------------------------------------------------
// networksetup proxy settings
// ---------------------------------------------------------------------------

/// A web or secure-web proxy setting of one network service.
#[derive(Debug)]
pub struct ProxyState {
    pub enabled: bool,
    pub server: String,
    pub port: u16,
    pub authenticated: bool,
}

/// The trimmed text after `key` on the first line that starts with `key`.
pub open spec fn field_value(ls: Seq<Seq<char>>, key: Seq<char>) -> Option<Seq<char>>
    decreases ls.len(),
{
    if ls.len() == 0 {
        None
    } else if starts_with(ls[0], key) {
        Some(trim(ls[0].skip(key.len() as int)))
    } else {
        field_value(ls.drop_first(), key)
    }
}

fn field_value_exec(ls: &Vec<Vec<char>>, key: &str) -> (r: Option<Vec<char>>)
    ensures
        match field_value(ls.deep_view(), key@) {
            Some(v) => r is Some && r->0@ == v,
            None => r is None,
        },
{
    let k = chars_of(key);
    let mut i: usize = 0;
    assert(ls.deep_view().skip(0) == ls.deep_view());
    while i < ls.len()
        invariant
            i <= ls.len(),
            k@ == key@,
            field_value(ls.deep_view().skip(i as int), key@) == field_value(ls.deep_view(), key@),
        decreases ls.len() - i,
    {
        proof {
            crate::text::lemma_deep_view_chars(&ls[i as int]);
            let s = ls.deep_view().skip(i as int);
            assert(s[0] == ls@[i as int]@);
            assert(s.drop_first() == ls.deep_view().skip(i + 1));
        }
        if crate::text::starts_with_exec(&ls[i], &k) {
            let rest = slice_of(&ls[i], k.len(), ls[i].len());
            return Some(trim_vec(&rest));
        }
        i += 1;
    }
    assert(ls.deep_view().skip(ls.len() as int) =~= Seq::<Seq<char>>::empty());
    None
}

pub open spec fn missing_field_message(key: Seq<char>) -> Seq<char> {
    "Missing "@ + key + " in networksetup output"@
}

/// What `networksetup -getwebproxy` (or `-getsecurewebproxy`) prints, read
/// in the order the fields are needed: an authenticated proxy is refused
/// before the other fields are looked at.
pub open spec fn parse_proxy_state_spec(output: Seq<char>) -> Result<
    (bool, Seq<char>, u16, bool),
    Seq<char>,
> {
    let ls = lines(output);
    match field_value(ls, "Authenticated Proxy Enabled:"@) {
        None => Err(missing_field_message("Authenticated Proxy Enabled:"@)),
        Some(a) => if eq_ignore_ascii_case(a, "yes"@) {
            Err(
                "Cobalt will not overwrite an authenticated system proxy. Disable it manually or use a separate network service."@,
            )
        } else {
            match field_value(ls, "Enabled:"@) {
                None => Err(missing_field_message("Enabled:"@)),
                Some(e) => match field_value(ls, "Server:"@) {
                    None => Err(missing_field_message("Server:"@)),
                    Some(s) => match field_value(ls, "Port:"@) {
                        None => Err(missing_field_message("Port:"@)),
                        Some(p) => match parse_unsigned(p, 0xffff) {
                            None => Err("Invalid existing proxy port"@),
                            Some(n) => Ok((eq_ignore_ascii_case(e, "yes"@), s, n as u16, false)),
                        },
                    },
                },
            }
        },
    }
}

fn missing_field(key: &str) -> (r: String)
    ensures
        r@ == missing_field_message(key@),
{
    let mut v = chars_of("Missing ");
    push_str(&mut v, key);
    push_str(&mut v, " in networksetup output");
    string_of(v.as_slice())
}

pub fn parse_proxy_state(output: &str) -> (r: Result<ProxyState, String>)
    ensures
        match parse_proxy_state_spec(output@) {
            Ok((enabled, server, port, authenticated)) => r is Ok && r->Ok_0.enabled == enabled
                && r->Ok_0.server@ == server && r->Ok_0.port == port && r->Ok_0.authenticated
                == authenticated,
            Err(e) => r is Err && r->Err_0@ == e,
        },
{
    let v = chars_of(output);
    let ls = split_lines(&v);
    let yes = chars_of("yes");
    let a = match field_value_exec(&ls, "Authenticated Proxy Enabled:") {
        Some(a) => a,
        None => {
            return Err(missing_field("Authenticated Proxy Enabled:"));
        },
    };
    if eq_ignore_ascii_case_exec(&a, &yes) {
        return Err(
            "Cobalt will not overwrite an authenticated system proxy. Disable it manually or use a separate network service.".to_string(),
        );
    }
    let e = match field_value_exec(&ls, "Enabled:") {
        Some(e) => e,
        None => {
            return Err(missing_field("Enabled:"));
        },
    };
    let s = match field_value_exec(&ls, "Server:") {
        Some(s) => s,
        None => {
            return Err(missing_field("Server:"));
        },
    };
    let p = match field_value_exec(&ls, "Port:") {
        Some(p) => p,
        None => {
            return Err(missing_field("Port:"));
        },
    };
    let port = match parse_unsigned_exec(&p, 0xffff) {
        Some(n) => n as u16,
        None => {
            return Err("Invalid existing proxy port".to_string());
        },
    };
    Ok(
        ProxyState {
            enabled: eq_ignore_ascii_case_exec(&e, &yes),
            server: string_of(s.as_slice()),
            port,
            authenticated: false,
        },
    )
}

// ---------------------------------------------------------------------------
// Network services
// ---------------------------------------------------------------------------

/// The network interface of the default route, from `route -n get default`.
pub open spec fn route_interface_spec(output: Seq<char>) -> Option<Seq<char>> {
    field_value(Seq::new(lines(output).len(), |k: int| trim(lines(output)[k])), "interface: "@)
}

pub fn interface_from_route_output(output: &str) -> (r: Option<String>)
    ensures
        match route_interface_spec(output@) {
            Some(n) => r is Some && r->0@ == n,
            None => r is None,
        },
{
    let v = chars_of(output);
    let ls = split_lines(&v);
    let mut trimmed: Vec<Vec<char>> = Vec::new();
    let mut i: usize = 0;
    while i < ls.len()
        invariant
            i <= ls.len(),
            ls.deep_view() == lines(output@),
            trimmed.deep_view() == Seq::new(i as nat, |k: int| trim(lines(output@)[k])),
        decreases ls.len() - i,
    {
        let t = trim_vec(&ls[i]);
        proof {
            crate::text::lemma_deep_view_chars(&ls[i as int]);
            crate::text::lemma_deep_view_chars(&t);
            assert(ls.deep_view()[i as int] == ls@[i as int]@);
        }
        let ghost before = trimmed.deep_view();
        trimmed.push(t);
        proof {
            assert(trimmed.deep_view() =~= before.push(t@));
            assert(trimmed.deep_view() =~= Seq::new((i + 1) as nat, |k: int| trim(lines(output@)[k])));
        }
        i += 1;
    }
    match field_value_exec(&trimmed, "interface: ") {
        Some(n) => Some(string_of(n.as_slice())),
        None => None,
    }
}

/// The service named on a `(<n>) <name>` line of the service order, or
/// `pending` when the line names none.
pub open spec fn service_name_line(t: Seq<char>, pending: Option<Seq<char>>) -> Option<Seq<char>> {
    if starts_with(t, "("@) {
        let rest = t.skip(1);
        match find(rest, ")"@) {
            Some(p) => {
                let name = trim(rest.skip(p + 1));
                if name.len() > 0 {
                    Some(name)
                } else {
                    pending
                }
            },
            None => pending,
        }
    } else {
        pending
    }
}

/// The device named on a hardware-port line: the text after `Device: ` up
/// to the closing parenthesis (or whitespace).
pub open spec fn port_device(t: Seq<char>) -> Option<Seq<char>> {
    match find(t, "Device: "@) {
        Some(p) => Some(before_stop(t.skip(p + 8), seq![')'], true)),
        None => None,
    }
}

/// Scan of `networksetup -listnetworkserviceorder` from line `i`: a service
/// line is remembered until the next hardware-port line, which selects it
/// when its device is the interface.
pub open spec fn service_scan(
    ls: Seq<Seq<char>>,
    device: Seq<char>,
    i: int,
    pending: Option<Seq<char>>,
) -> Option<Seq<char>>
    decreases ls.len() - i,
{
    if i < 0 || i >= ls.len() {
        None
    } else {
        let t = trim(ls[i]);
        if starts_with(t, "(Hardware Port:"@) {
            match pending {
                Some(svc) => if port_device(t) == Some(device) {
                    Some(svc)
                } else {
                    service_scan(ls, device, i + 1, None)
                },
                None => service_scan(ls, device, i + 1, None),
            }
        } else {
            service_scan(ls, device, i + 1, service_name_line(t, pending))
        }
    }
}

/// The network service whose hardware port is `interface`.
pub open spec fn service_for_interface_spec(order: Seq<char>, interface: Seq<char>) -> Option<
    Seq<char>,
> {
    service_scan(lines(order), interface, 0, None)
}

fn service_name_line_exec(t: &Vec<char>, pending: Option<Vec<char>>) -> (r: Option<Vec<char>>)
    ensures
        r.deep_view() == service_name_line(t@, pending.deep_view()),
{
    proof {
        reveal_strlit("(");
        reveal_strlit(")");
    }
    if !starts_with_str(t, "(") {
        return pending;
    }
    let rest = slice_of(t, 1, t.len());
    assert(rest@ == t@.skip(1));
    match find_str(&rest, ")") {
        Some(p) => {
            proof {
                crate::text::lemma_find_from(rest@, ")"@, 0);
            }
            let tail = slice_of(&rest, p + 1, rest.len());
            let name = trim_vec(&tail);
            proof {
                crate::text::lemma_deep_view_chars(&name);
            }
            if name.len() > 0 {
                Some(name)
            } else {
                pending
            }
        },
        None => pending,
    }
}

fn port_device_is(t: &Vec<char>, device: &Vec<char>) -> (r: bool)
    ensures
        r == (port_device(t@) == Some(device@)),
{
    proof {
        reveal_strlit("Device: ");
    }
    match find_str(t, "Device: ") {
        Some(p) => {
            proof {
                crate::text::lemma_find_from(t@, "Device: "@, 0);
            }
            let n = t.len();
            let rest = slice_of(t, p + 8, n);
            let close = vec![')'];
            proof {
                assert(close@ =~= seq![')']);
            }
            let d = before_stop_exec(&rest, &close, true);
            seq_eq(&d, device)
        },
        None => false,
    }
}

pub fn service_for_interface(order_output: &str, interface: &str) -> (r: Option<String>)
    ensures
        match service_for_interface_spec(order_output@, interface@) {
            Some(n) => r is Some && r->0@ == n,
            None => r is None,
        },
{
    let v = chars_of(order_output);
    let ls = split_lines(&v);
    let device = chars_of(interface);
    let mut pending: Option<Vec<char>> = None;
    let mut i: usize = 0;
    while i < ls.len()
        invariant
            i <= ls.len(),
            ls.deep_view() == lines(order_output@),
            device@ == interface@,
            service_scan(ls.deep_view(), device@, i as int, pending.deep_view())
                == service_for_interface_spec(order_output@, interface@),
        decreases ls.len() - i,
    {
        proof {
            crate::text::lemma_deep_view_chars(&ls[i as int]);
            assert(ls.deep_view()[i as int] == ls@[i as int]@);
        }
        let t = trim_vec(&ls[i]);
        let ghost old_pending = pending.deep_view();
        assert(t@ == trim(ls.deep_view()[i as int]));
        if starts_with_str(&t, "(Hardware Port:") {
            match pending {
                Some(svc) => {
                    if port_device_is(&t, &device) {
                        proof {
                            crate::text::lemma_deep_view_chars(&svc);
                        }
                        return Some(string_of(svc.as_slice()));
                    }
                },
                None => {},
            }
            pending = None;
            assert(service_scan(ls.deep_view(), device@, i as int, old_pending) == service_scan(
                ls.deep_view(),
                device@,
                i + 1,
                None,
            ));
        } else {
            pending = service_name_line_exec(&t, pending);
            assert(service_scan(ls.deep_view(), device@, i as int, old_pending) == service_scan(
                ls.deep_view(),
                device@,
                i + 1,
                pending.deep_view(),
            ));
        }
        i += 1;
    }
    None
}

/// Services of the service order that can carry a proxy setting, in order:
/// every `(<n>) <name>` line with a non-empty name that is not a serial port.
pub open spec fn fallback_candidates(ls: Seq<Seq<char>>) -> Seq<Seq<char>>
    decreases ls.len(),
{
    if ls.len() == 0 {
        Seq::empty()
    } else {
        let t = trim(ls.last());
        let before = fallback_candidates(ls.drop_last());
        if starts_with(t, "("@) {
            match find(t.skip(1), ")"@) {
                Some(p) => {
                    let name = trim(t.skip(1).skip(p + 1));
                    if name.len() > 0 && !contains(name, "Serial Port"@) {
                        before.push(name)
                    } else {
                        before
                    }
                },
                None => before,
            }
        } else {
            before
        }
    }
}

pub fn fallback_service_candidates(order_output: &str) -> (r: Vec<String>)
    ensures
        r.deep_view() == fallback_candidates(lines(order_output@)),
{
    let v = chars_of(order_output);
    let ls = split_lines(&v);
    let mut r: Vec<String> = Vec::new();
    let mut i: usize = 0;
    while i < ls.len()
        invariant
            i <= ls.len(),
            ls.deep_view() == lines(order_output@),
            r.deep_view() == fallback_candidates(ls.deep_view().take(i as int)),
        decreases ls.len() - i,
    {
        proof {
            crate::text::lemma_deep_view_chars(&ls[i as int]);
            let p = ls.deep_view().take(i + 1);
            assert(p.drop_last() == ls.deep_view().take(i as int));
            assert(p.last() == ls@[i as int]@);
        }
        let t = trim_vec(&ls[i]);
        let ghost before = r.deep_view();
        proof {
            reveal_strlit("(");
            reveal_strlit(")");
        }
        if starts_with_str(&t, "(") {
            let rest = slice_of(&t, 1, t.len());
            match find_str(&rest, ")") {
                Some(p) => {
                    proof {
                        crate::text::lemma_find_from(rest@, ")"@, 0);
                    }
                    let tail = slice_of(&rest, p + 1, rest.len());
                    let name = trim_vec(&tail);
                    if name.len() > 0 && !contains_str(&name, "Serial Port") {
                        let s = string_of(name.as_slice());
                        r.push(s);
                        proof {
                            assert(r.deep_view() =~= before.push(name@));
                        }
                    }
                },
                None => {},
            }
        }
        i += 1;
    }
    assert(ls.deep_view().take(ls.len() as int) == ls.deep_view());
    r
}

/// `networksetup -getinfo` output of a service that has an IP address.
pub fn service_has_ip_address(info: &str) -> (r: bool)
    ensures
        r == contains(info@, "IP address:"@),
{
    contains_str(&chars_of(info), "IP address:")
}

/// The service that capture points at the proxy: the one owning the default
/// route when it is known, else the first service with an IP address.
pub fn primary_proxy_services(
    route_service: Option<String>,
    first_service_with_ip: Option<String>,
) -> (r: Result<Vec<String>, String>)
    ensures
        match route_service {
            Some(s) => r is Ok && r->Ok_0@ == seq![s],
            None => match first_service_with_ip {
                Some(s) => r is Ok && r->Ok_0@ == seq![s],
                None => r is Err && r->Err_0@
                    == "No active macOS network service was found for proxy capture."@,
            },
        },
{
    match route_service {
        Some(s) => Ok(vec![s]),
        None => match first_service_with_ip {
            Some(s) => Ok(vec![s]),
            None => Err("No active macOS network service was found for proxy capture.".to_string()),
        },
    }
}

// ---------------------------------------------------------------------------
// Certificate
// ---------------------------------------------------------------------------

/// Whether `security find-certificate -Z` output lists a SHA-256 hash equal
/// to `fingerprint`, ignoring ASCII case.
pub open spec fn keychain_contains_spec(output: Seq<char>, fingerprint: Seq<char>) -> bool {
    exists|k: int|
        0 <= k < lines(output).len() && starts_with(#[trigger] lines(output)[k], "SHA-256 hash:"@)
            && eq_ignore_ascii_case(trim(lines(output)[k].skip(13)), fingerprint)
}

pub fn keychain_contains_fingerprint(output: &str, fingerprint: &str) -> (r: bool)
    ensures
        r == keychain_contains_spec(output@, fingerprint@),
{
    let v = chars_of(output);
    let ls = split_lines(&v);
    let fp = chars_of(fingerprint);
    proof {
        reveal_strlit("SHA-256 hash:");
    }
    let mut i: usize = 0;
    while i < ls.len()
        invariant
            i <= ls.len(),
            ls.deep_view() == lines(output@),
            fp@ == fingerprint@,
            "SHA-256 hash:"@.len() == 13,
            forall|k: int|
                0 <= k < i ==> !(starts_with(#[trigger] lines(output@)[k], "SHA-256 hash:"@)
                    && eq_ignore_ascii_case(trim(lines(output@)[k].skip(13)), fingerprint@)),
        decreases ls.len() - i,
    {
        proof {
            crate::text::lemma_deep_view_chars(&ls[i as int]);
            assert(lines(output@)[i as int] == ls@[i as int]@);
        }
        if starts_with_str(&ls[i], "SHA-256 hash:") {
            let rest = slice_of(&ls[i], 13, ls[i].len());
            let t = trim_vec(&rest);
            if eq_ignore_ascii_case_exec(&t, &fp) {
                return true;
            }
        }
        i += 1;
    }
    false
}

/// Whether the certificate is found does not depend on the letter case of
/// the fingerprint asked for.
pub proof fn lemma_fingerprint_case_is_ignored(output: Seq<char>, fp1: Seq<char>, fp2: Seq<char>)
    requires
        eq_ignore_ascii_case(fp1, fp2),
    ensures
        keychain_contains_spec(output, fp1) == keychain_contains_spec(output, fp2),
{
    if keychain_contains_spec(output, fp1) {
        let k = choose|k: int|
            0 <= k < lines(output).len() && starts_with(#[trigger] lines(output)[k], "SHA-256 hash:"@)
                && eq_ignore_ascii_case(trim(lines(output)[k].skip(13)), fp1);
        assert(eq_ignore_ascii_case(trim(lines(output)[k].skip(13)), fp2));
    }
    if keychain_contains_spec(output, fp2) {
        let k = choose|k: int|
            0 <= k < lines(output).len() && starts_with(#[trigger] lines(output)[k], "SHA-256 hash:"@)
                && eq_ignore_ascii_case(trim(lines(output)[k].skip(13)), fp2);
        assert(eq_ignore_ascii_case(trim(lines(output)[k].skip(13)), fp1));
    }
}

/// One of the markers whose presence in a process name reveals a proxy tool
/// with a TUN mode (besides a name starting with `clash`).
pub open spec fn is_listed_tun_marker(m: Seq<char>) -> bool {
    m == "mihomo"@
        || m == "verge"@
        || m == "surge"@
        || m == "sing-box"@
        || m == "singbox"@
        || m == "v2ray"@
        || m == "xray"@
        || m == "shadowsocks"@
        || m == "ss-local"@
        || m == "trojan"@
        || m == "quantumult"@
        || m == "stash"@
        || m == "karing"@
        || m == "hiddify"@
        || m == "loon"@
}

/// The process name starts with `clash` or contains one of the listed
/// markers.
pub open spec fn names_listed_tool(n: Seq<char>, marker: Seq<char>) -> bool {
    starts_with(n, "clash"@) || (is_listed_tun_marker(marker) && contains(n, marker))
}

proof fn lemma_listed_tool_is_tun_tool(n: Seq<char>, marker: Seq<char>)
    requires
        names_listed_tool(n, marker),
    ensures
        is_tun_tool_name(n),
{
    reveal_strlit("clash");
    reveal_strlit("mihomo");
    reveal_strlit("verge");
    reveal_strlit("surge");
    reveal_strlit("sing-box");
    reveal_strlit("singbox");
    reveal_strlit("v2ray");
    reveal_strlit("xray");
    reveal_strlit("shadowsocks");
    reveal_strlit("ss-local");
    reveal_strlit("trojan");
    reveal_strlit("quantumult");
    reveal_strlit("stash");
    reveal_strlit("karing");
    reveal_strlit("hiddify");
    reveal_strlit("loon");
    if !starts_with(n, "clash"@) {
        crate::text::lemma_find_from(n, marker, 0);
        assert(marker.len() > 0);
    }
}

proof fn lemma_tool_line_is_candidate(ls: Seq<Seq<char>>, k: int)
    requires
        0 <= k < ls.len(),
        is_tun_tool_name(ps_name(ls[k])),
    ensures
        exists|j: int| 0 <= j < tun_candidates(ls).len() && #[trigger] tun_candidates(ls)[j] == ps_name(ls[k]),
    decreases ls.len(),
{
    let r = tun_candidates(ls.drop_last());
    if k == ls.len() - 1 {
        assert(tun_candidates(ls)[r.len() as int] == ps_name(ls[k]));
    } else {
        assert(ls.drop_last()[k] == ls[k]);
        lemma_tool_line_is_candidate(ls.drop_last(), k);
        let j = choose|j: int| 0 <= j < r.len() && #[trigger] r[j] == ps_name(ls[k]);
        assert(tun_candidates(ls)[j] == r[j]);
    }
}

proof fn lemma_non_service_is_kept(c: Seq<Seq<char>>, j: int)
    requires
        0 <= j < c.len(),
        !contains(c[j], "service"@),
    ensures
        without_service(c).len() > 0,
    decreases c.len(),
{
    if j < c.len() - 1 {
        assert(c.drop_last()[j] == c[j]);
        lemma_non_service_is_kept(c.drop_last(), j);
    }
}

/// A running proxy tool is reported: when some process name starts with
/// `clash`, or contains one of `mihomo`, `verge`, `surge`, `sing-box`,
/// `singbox`, `v2ray`, `xray`, `shadowsocks`, `ss-local`, `trojan`,
/// `quantumult`, `stash`, `karing`, `hiddify` or `loon`, and is no
/// background service, a TUN-mode proxy is detected.
pub proof fn lemma_listed_tools_are_detected(ps_output: Seq<char>, k: int, marker: Seq<char>)
    requires
        0 <= k < lines(ps_output).len(),
        names_listed_tool(ps_name(lines(ps_output)[k]), marker),
        !contains(ps_name(lines(ps_output)[k]), "service"@),
    ensures
        tun_proxy_name_spec(ps_output) is Some,
{
    let ls = lines(ps_output);
    let n = ps_name(ls[k]);
    lemma_listed_tool_is_tun_tool(n, marker);
    lemma_tool_line_is_candidate(ls, k);
    let c = tun_candidates(ls);
    let j = choose|j: int| 0 <= j < c.len() && #[trigger] c[j] == n;
    if c.len() > 1 {
        lemma_non_service_is_kept(c, j);
    }
}

/// When the only process is such a tool, its name is reported with the
/// first letter upper-cased.
pub proof fn lemma_single_listed_tool_is_named(ps_output: Seq<char>, marker: Seq<char>)
    requires
        lines(ps_output).len() == 1,
        names_listed_tool(ps_name(lines(ps_output)[0]), marker),
    ensures
        tun_proxy_name_spec(ps_output) == Some(
            uppercase(ps_name(lines(ps_output)[0])[0]) + ps_name(lines(ps_output)[0]).skip(1),
        ),
{
    let ls = lines(ps_output);
    let n = ps_name(ls[0]);
    lemma_listed_tool_is_tun_tool(n, marker);
    assert(ls.drop_last().len() == 0);
    assert(tun_candidates(ls.drop_last()) == Seq::<Seq<char>>::empty());
    assert(ls.last() == ls[0]);
    assert(tun_candidates(ls) =~= seq![n]);
}

/// No proxy tool is reported when no process name starts with `clash` or
/// contains a listed marker.
pub proof fn lemma_unlisted_processes_are_not_detected(ps_output: Seq<char>)
    requires
        forall|k: int|
            0 <= k < lines(ps_output).len() ==> !starts_with(
                #[trigger] ps_name(lines(ps_output)[k]),
                "clash"@,
            ),
        forall|k: int, m: Seq<char>|
            0 <= k < lines(ps_output).len() && is_listed_tun_marker(m) ==> !#[trigger] contains(ps_name(lines(ps_output)[k]), m),
    ensures
        tun_proxy_name_spec(ps_output) is None,
{
    lemma_no_candidates(lines(ps_output));
}

proof fn lemma_no_candidates(ls: Seq<Seq<char>>)
    requires
        forall|k: int| 0 <= k < ls.len() ==> !starts_with(#[trigger] ps_name(ls[k]), "clash"@),
        forall|k: int, m: Seq<char>|
            0 <= k < ls.len() && is_listed_tun_marker(m) ==> !#[trigger] contains(ps_name(ls[k]), m),
    ensures
        tun_candidates(ls).len() == 0,
    decreases ls.len(),
{
    if ls.len() > 0 {
        let n = ps_name(ls[ls.len() - 1]);
        assert(ls.last() == ls[ls.len() - 1]);
        assert(!starts_with(n, "clash"@));
        assert(!is_tun_tool_name(n)) by {
            assert(is_listed_tun_marker("mihomo"@));
            assert(is_listed_tun_marker("verge"@));
            assert(is_listed_tun_marker("surge"@));
            assert(is_listed_tun_marker("sing-box"@));
            assert(is_listed_tun_marker("singbox"@));
            assert(is_listed_tun_marker("v2ray"@));
            assert(is_listed_tun_marker("xray"@));
            assert(is_listed_tun_marker("shadowsocks"@));
            assert(is_listed_tun_marker("ss-local"@));
            assert(is_listed_tun_marker("trojan"@));
            assert(is_listed_tun_marker("quantumult"@));
            assert(is_listed_tun_marker("stash"@));
            assert(is_listed_tun_marker("karing"@));
            assert(is_listed_tun_marker("hiddify"@));
            assert(is_listed_tun_marker("loon"@));
        }
        assert forall|k: int| 0 <= k < ls.drop_last().len() implies !starts_with(
            #[trigger] ps_name(ls.drop_last()[k]),
            "clash"@,
        ) by {
            assert(ls.drop_last()[k] == ls[k]);
        }
        assert forall|k: int, m: Seq<char>|
            0 <= k < ls.drop_last().len() && is_listed_tun_marker(m) implies !#[trigger] contains(ps_name(ls.drop_last()[k]), m) by {
            assert(ls.drop_last()[k] == ls[k]);
        }
        lemma_no_candidates(ls.drop_last());
    }
}

} // verus!
