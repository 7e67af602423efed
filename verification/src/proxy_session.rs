//! Switching the macOS system proxy to the capture proxy and back: the
//! checks made first, the `networksetup` commands, and what is reported.
use vstd::prelude::*;
use crate::capture::{keeps_certificate, SnifferState};
use crate::files::{join, join_exec};
use crate::invocation::push_text;
use crate::links::{url_parse, UrlParts};
use crate::sniffer::ProxyState;
use crate::text::{chars_of, dec_string, push_decimal, push_str, str_eq, string_of};

verus! {

// ---------------------------------------------------------------------------
// Sidecar commands
// ---------------------------------------------------------------------------

/// A command sent to the capture sidecar.
pub enum SidecarCommand {
    Start { port: u16, upstream_proxy: String },
    Stop,
    Clear,
    ResolveDownload { resource_id: String },
}

impl SidecarCommand {
    /// The `command` field of the message.
    pub fn name(&self) -> (r: String)
        ensures
            r@ == match self {
                SidecarCommand::Start { .. } => "start"@,
                SidecarCommand::Stop => "stop"@,
                SidecarCommand::Clear => "clear"@,
                SidecarCommand::ResolveDownload { .. } => "resolve_download"@,
            },
    {
        match self {
            SidecarCommand::Start { .. } => "start".to_string(),
            SidecarCommand::Stop => "stop".to_string(),
            SidecarCommand::Clear => "clear".to_string(),
            SidecarCommand::ResolveDownload { .. } => "resolve_download".to_string(),
        }
    }

    /// The `id` field of the message, which the sidecar's answer repeats.
    pub fn request_id(&self) -> (r: String)
        ensures
            r@ == match self {
                SidecarCommand::Start { .. } => "start"@,
                SidecarCommand::Stop => "stop"@,
                SidecarCommand::Clear => "clear"@,
                SidecarCommand::ResolveDownload { resource_id } => "resolve:"@ + resource_id@,
            },
    {
        match self {
            SidecarCommand::Start { .. } => "start".to_string(),
            SidecarCommand::Stop => "stop".to_string(),
            SidecarCommand::Clear => "clear".to_string(),
            SidecarCommand::ResolveDownload { resource_id } => {
                let mut v = chars_of("resolve:");
                push_str(&mut v, resource_id.as_str());
                string_of(v.as_slice())
            },
        }
    }
}

/// The command that starts capture on the state's port, through its
/// upstream proxy (empty for none).
pub fn start_command(state: &SnifferState) -> (c: SidecarCommand)
    ensures
        c matches SidecarCommand::Start { port, upstream_proxy } && port == state.port
            && upstream_proxy@ == match state.upstream {
            Some(u) => u@,
            None => Seq::empty(),
        },
{
    let upstream_proxy = match &state.upstream {
        Some(u) => u.clone(),
        None => String::new(),
    };
    SidecarCommand::Start { port: state.port, upstream_proxy }
}

// ---------------------------------------------------------------------------
// Enabling
// ---------------------------------------------------------------------------

/// The first checks before the system proxy is switched: capture must be
/// running and its certificate trusted.
pub open spec fn enable_precheck_spec(running: bool, certificate_installed: bool) -> Result<
    (),
    Seq<char>,
> {
    if !running {
        Err("Start the resource sniffer before enabling its system proxy."@)
    } else if !certificate_installed {
        Err("Install and verify Cobalt's local capture certificate before enabling the system proxy."@)
    } else {
        Ok(())
    }
}

pub fn enable_precheck(state: &SnifferState) -> (r: Result<(), String>)
    ensures
        match enable_precheck_spec(state.status@ == "running"@, state.certificate_installed) {
            Ok(()) => r is Ok,
            Err(e) => r is Err && r->Err_0@ == e,
        },
{
    if !state.is_running() {
        return Err("Start the resource sniffer before enabling its system proxy.".to_string());
    }
    if !state.certificate_installed {
        return Err(
            "Install and verify Cobalt's local capture certificate before enabling the system proxy.".to_string(),
        );
    }
    Ok(())
}

pub open spec fn tun_conflict_spec(app_name: Seq<char>) -> Seq<char> {
    "TUN-mode proxy ("@ + app_name
        + ") is running. It conflicts with local capture: WeChat Channels may fail to open. Turn off TUN mode, or use the Channels web version in a browser instead."@
}

/// Why capture refuses to switch the system proxy while a TUN-mode proxy
/// runs.
pub fn tun_conflict_message(app_name: &str) -> (r: String)
    ensures
        r@ == tun_conflict_spec(app_name@),
{
    let mut v = chars_of("TUN-mode proxy (");
    push_str(&mut v, app_name);
    push_str(
        &mut v,
        ") is running. It conflicts with local capture: WeChat Channels may fail to open. Turn off TUN mode, or use the Channels web version in a browser instead.",
    );
    string_of(v.as_slice())
}

pub open spec fn not_listening_spec(port: u16) -> Seq<char> {
    "The capture proxy is not actually listening on 127.0.0.1:"@ + dec_string(port as nat)
        + ". Stop and start capture, then retry."@
}

/// Why capture refuses to switch the system proxy when nothing listens on
/// its port.
pub fn not_listening_message(port: u16) -> (r: String)
    ensures
        r@ == not_listening_spec(port),
{
    let mut v = chars_of("The capture proxy is not actually listening on 127.0.0.1:");
    push_decimal(&mut v, port as u64);
    push_str(&mut v, ". Stop and start capture, then retry.");
    string_of(v.as_slice())
}

/// The `host:port` address of an upstream proxy link, or why it has none.
pub open spec fn proxy_endpoint_spec(proxy_url: Seq<char>) -> Result<Seq<char>, Seq<char>> {
    match url_parse(proxy_url) {
        Err(e) => Err("Invalid proxy URL ("@ + proxy_url + "): "@ + e),
        Ok(u) => match u.host {
            None => Err("Proxy URL ("@ + proxy_url + ") has no host"@),
            Some(h) => match u.port {
                None => Err("Proxy URL ("@ + proxy_url + ") has no port"@),
                Some(p) => Ok(h + ":"@ + dec_string(p as nat)),
            },
        },
    }
}

/// The address that is probed before the system proxy is switched, so that
/// traffic is never pointed at an upstream proxy that is down.
pub fn proxy_endpoint(proxy_url: &str) -> (r: Result<String, String>)
    ensures
        match proxy_endpoint_spec(proxy_url@) {
            Ok(a) => r is Ok && r->Ok_0@ == a,
            Err(e) => r is Err && r->Err_0@ == e,
        },
{
    match UrlParts::parse(proxy_url) {
        Err(e) => {
            let mut v = chars_of("Invalid proxy URL (");
            push_str(&mut v, proxy_url);
            push_str(&mut v, "): ");
            push_str(&mut v, e.as_str());
            Err(string_of(v.as_slice()))
        },
        Ok(u) => match &u.host {
            None => {
                let mut v = chars_of("Proxy URL (");
                push_str(&mut v, proxy_url);
                push_str(&mut v, ") has no host");
                Err(string_of(v.as_slice()))
            },
            Some(h) => match u.port {
                None => {
                    let mut v = chars_of("Proxy URL (");
                    push_str(&mut v, proxy_url);
                    push_str(&mut v, ") has no port");
                    Err(string_of(v.as_slice()))
                },
                Some(p) => {
                    let mut v = chars_of(h.as_str());
                    push_str(&mut v, ":");
                    push_decimal(&mut v, p as u64);
                    Ok(string_of(v.as_slice()))
                },
            },
        },
    }
}

pub open spec fn unreachable_proxy_spec(proxy_url: Seq<char>) -> Seq<char> {
    "Cobalt's configured proxy ("@ + proxy_url
        + ") is not reachable. Start it, or disable \"Use proxy\" in Cobalt settings, before enabling the system proxy."@
}

pub fn unreachable_proxy_message(proxy_url: &str) -> (r: String)
    ensures
        r@ == unreachable_proxy_spec(proxy_url@),
{
    let mut v = chars_of("Cobalt's configured proxy (");
    push_str(&mut v, proxy_url);
    push_str(
        &mut v,
        ") is not reachable. Start it, or disable \"Use proxy\" in Cobalt settings, before enabling the system proxy.",
    );
    string_of(v.as_slice())
}

/// The `networksetup` argument lists that point both the web and the secure
/// web proxy of `service` at the capture proxy on `port`, and switch them on.
pub open spec fn capture_proxy_commands_spec(service: Seq<char>, port: u16) -> Seq<Seq<Seq<char>>> {
    let p = dec_string(port as nat);
    seq![
        seq!["-setwebproxy"@, service, "127.0.0.1"@, p],
        seq!["-setsecurewebproxy"@, service, "127.0.0.1"@, p],
        seq!["-setwebproxystate"@, service, "on"@],
        seq!["-setsecurewebproxystate"@, service, "on"@],
    ]
}

pub open spec fn command_views(c: Seq<Vec<String>>) -> Seq<Seq<Seq<char>>> {
    c.map_values(|v: Vec<String>| v.deep_view())
}

fn port_text(port: u16) -> (r: String)
    ensures
        r@ == dec_string(port as nat),
{
    let mut v: Vec<char> = Vec::new();
    push_decimal(&mut v, port as u64);
    proof {
        assert(v@ =~= Seq::<char>::empty() + dec_string(port as nat));
    }
    string_of(v.as_slice())
}

fn args2(a: &str, b: &str) -> (r: Vec<String>)
    ensures
        r.deep_view() == seq![a@, b@],
{
    let mut v: Vec<String> = Vec::new();
    push_text(&mut v, a);
    push_text(&mut v, b);
    proof {
        assert(v.deep_view() =~= seq![a@, b@]);
    }
    v
}

fn args3(a: &str, b: &str, c: &str) -> (r: Vec<String>)
    ensures
        r.deep_view() == seq![a@, b@, c@],
{
    let mut v = args2(a, b);
    push_text(&mut v, c);
    proof {
        assert(v.deep_view() =~= seq![a@, b@, c@]);
    }
    v
}

fn args4(a: &str, b: &str, c: &str, d: &str) -> (r: Vec<String>)
    ensures
        r.deep_view() == seq![a@, b@, c@, d@],
{
    let mut v = args3(a, b, c);
    push_text(&mut v, d);
    proof {
        assert(v.deep_view() =~= seq![a@, b@, c@, d@]);
    }
    v
}

pub fn capture_proxy_commands(service: &str, port: u16) -> (r: Vec<Vec<String>>)
    ensures
        command_views(r@) == capture_proxy_commands_spec(service@, port),
{
    let p = port_text(port);
    let mut r: Vec<Vec<String>> = Vec::new();
    r.push(args4("-setwebproxy", service, "127.0.0.1", p.as_str()));
    r.push(args4("-setsecurewebproxy", service, "127.0.0.1", p.as_str()));
    r.push(args3("-setwebproxystate", service, "on"));
    r.push(args3("-setsecurewebproxystate", service, "on"));
    proof {
        assert(command_views(r@) =~= capture_proxy_commands_spec(service@, port));
    }
    r
}

/// What is reported when switching the system proxy failed, with the
/// outcome of restoring the previous configuration.
pub open spec fn enable_failure_spec(error: Seq<char>, rollback: Result<(), Seq<char>>) -> Seq<char> {
    "Failed to enable the system proxy: "@ + error + match rollback {
        Ok(()) => " The previous proxy configuration was restored."@,
        Err(r) => " Rollback also failed: "@ + r,
    }
}

pub fn enable_failure_message(error: &str, rollback: &Result<(), String>) -> (r: String)
    ensures
        r@ == enable_failure_spec(
            error@,
            match rollback {
                Ok(()) => Ok(()),
                Err(e) => Err(e@),
            },
        ),
{
    let mut v = chars_of("Failed to enable the system proxy: ");
    push_str(&mut v, error);
    match rollback {
        Ok(()) => push_str(&mut v, " The previous proxy configuration was restored."),
        Err(e) => {
            push_str(&mut v, " Rollback also failed: ");
            push_str(&mut v, e.as_str());
        },
    }
    string_of(v.as_slice())
}

/// The state once the system proxy points at the capture proxy.
pub fn mark_proxy_active(state: &mut SnifferState)
    requires
        old(state).wf(),
    ensures
        final(state).wf(),
        final(state).proxy_active,
        final(state).message matches Some(m) && m@
            == "System proxy is active on the primary network service. Play a video in WeChat Channels now."@,
        final(state).status == old(state).status,
        final(state).captures == old(state).captures,
        final(state).descriptors == old(state).descriptors,
        final(state).port == old(state).port,
        final(state).upstream == old(state).upstream,
        final(state).data_dir == old(state).data_dir,
        keeps_certificate(*old(state), *final(state)),
{
    state.proxy_active = true;
    state.message = Some(
        "System proxy is active on the primary network service. Play a video in WeChat Channels now.".to_string(),
    );
}

// ---------------------------------------------------------------------------
// Restoring
// ---------------------------------------------------------------------------

/// Where the proxy settings saved before capture are kept.
pub fn proxy_snapshot_path(state: &SnifferState) -> (r: String)
    ensures
        r@ == join(state.data_dir@, "sniffer-proxy-session.json"@),
{
    let p = join_exec(&chars_of(state.data_dir.as_str()), &chars_of("sniffer-proxy-session.json"));
    string_of(p.as_slice())
}

/// The `networksetup` verbs that read, set and switch the web proxy or the
/// secure web proxy.
pub open spec fn proxy_verbs(web: bool) -> (Seq<char>, Seq<char>, Seq<char>) {
    if web {
        ("-getwebproxy"@, "-setwebproxy"@, "-setwebproxystate"@)
    } else {
        ("-getsecurewebproxy"@, "-setsecurewebproxy"@, "-setsecurewebproxystate"@)
    }
}

/// The commands that give a service back its saved proxy: none when the
/// service no longer points at the capture proxy on `capture_port` (someone
/// changed it since, and their setting stays); else the saved server and
/// port switched on, or the proxy switched off when it was off.
pub open spec fn restore_commands_spec(
    web: bool,
    service: Seq<char>,
    saved: (bool, Seq<char>, u16),
    current: (Seq<char>, u16),
    capture_port: u16,
) -> Option<Seq<Seq<Seq<char>>>> {
    let (_, set, toggle) = proxy_verbs(web);
    if current.0 != "127.0.0.1"@ || current.1 != capture_port {
        None
    } else if saved.0 {
        Some(
            seq![
                seq![set, service, saved.1, dec_string(saved.2 as nat)],
                seq![toggle, service, "on"@],
            ],
        )
    } else {
        Some(seq![seq![toggle, service, "off"@]])
    }
}

/// The command that reads the current proxy of a service.
pub fn read_proxy_command(web: bool, service: &str) -> (r: Vec<String>)
    ensures
        r.deep_view() == seq![proxy_verbs(web).0, service@],
{
    if web {
        args2("-getwebproxy", service)
    } else {
        args2("-getsecurewebproxy", service)
    }
}

/// The commands that restore one proxy kind of a service, run in order
/// until one fails.
pub fn restore_commands(
    web: bool,
    service: &str,
    saved: &ProxyState,
    current: &ProxyState,
    capture_port: u16,
) -> (r: Option<Vec<Vec<String>>>)
    ensures
        match restore_commands_spec(
            web,
            service@,
            (saved.enabled, saved.server@, saved.port),
            (current.server@, current.port),
            capture_port,
        ) {
            Some(c) => r is Some && command_views(r->0@) == c,
            None => r is None,
        },
{
    if !str_eq(&chars_of(current.server.as_str()), "127.0.0.1") || current.port != capture_port {
        return None;
    }
    let set = if web {
        "-setwebproxy"
    } else {
        "-setsecurewebproxy"
    };
    let toggle = if web {
        "-setwebproxystate"
    } else {
        "-setsecurewebproxystate"
    };
    proof {
        reveal_strlit("-setwebproxy");
        reveal_strlit("-setsecurewebproxy");
        reveal_strlit("-setwebproxystate");
        reveal_strlit("-setsecurewebproxystate");
    }
    let mut r: Vec<Vec<String>> = Vec::new();
    if saved.enabled {
        let p = port_text(saved.port);
        r.push(args4(set, service, saved.server.as_str(), p.as_str()));
        r.push(args3(toggle, service, "on"));
    } else {
        r.push(args3(toggle, service, "off"));
    }
    proof {
        let c = restore_commands_spec(
            web,
            service@,
            (saved.enabled, saved.server@, saved.port),
            (current.server@, current.port),
            capture_port,
        );
        assert(command_views(r@) =~= c->0);
    }
    Some(r)
}

/// One failed restoration: `<service> (<web|secure>): <error>`.
pub fn restore_failure_entry(service: &str, web: bool, error: &str) -> (r: String)
    ensures
        r@ == service@ + " ("@ + (if web {
            "web"@
        } else {
            "secure"@
        }) + "): "@ + error@,
{
    let mut v = chars_of(service);
    push_str(&mut v, " (");
    if web {
        push_str(&mut v, "web");
    } else {
        push_str(&mut v, "secure");
    }
    push_str(&mut v, "): ");
    push_str(&mut v, error);
    string_of(v.as_slice())
}

/// The texts joined with `sep` between them (`[String]::join`).
pub open spec fn joined(items: Seq<Seq<char>>, sep: Seq<char>) -> Seq<char>
    decreases items.len(),
{
    if items.len() == 0 {
        Seq::empty()
    } else if items.len() == 1 {
        items[0]
    } else {
        joined(items.drop_last(), sep) + sep + items.last()
    }
}

/// The outcome of restoring the system proxy: success when nothing failed,
/// else every failure, separated by `"; "`.
pub open spec fn restore_outcome_spec(failures: Seq<Seq<char>>) -> Result<(), Seq<char>> {
    if failures.len() == 0 {
        Ok(())
    } else {
        Err("Could not fully restore the system proxy: "@ + joined(failures, "; "@))
    }
}

pub fn restore_outcome(failures: &Vec<String>) -> (r: Result<(), String>)
    ensures
        match restore_outcome_spec(failures.deep_view()) {
            Ok(()) => r is Ok,
            Err(e) => r is Err && r->Err_0@ == e,
        },
{
    if failures.len() == 0 {
        return Ok(());
    }
    let mut v: Vec<char> = Vec::new();
    let mut i: usize = 0;
    while i < failures.len()
        invariant
            i <= failures.len(),
            v@ == joined(failures.deep_view().take(i as int), "; "@),
        decreases failures.len() - i,
    {
        proof {
            reveal_strlit("; ");
            let t = failures.deep_view().take(i + 1);
            assert(t.drop_last() =~= failures.deep_view().take(i as int));
            assert(t.last() == failures@[i as int]@);
            if i == 0 {
                assert(t =~= seq![failures@[0]@]);
            }
        }
        if i > 0 {
            push_str(&mut v, "; ");
        }
        push_str(&mut v, failures[i].as_str());
        i += 1;
    }
    proof {
        assert(failures.deep_view().take(failures.len() as int) =~= failures.deep_view());
    }
    let mut m = chars_of("Could not fully restore the system proxy: ");
    crate::text::push_all(&mut m, &v);
    Err(string_of(m.as_slice()))
}

// ---------------------------------------------------------------------------
// The certificate
// ---------------------------------------------------------------------------

/// The login keychain of the user whose home is `home` (the system one when
/// `HOME` is not set).
pub fn login_keychain_path(home: Option<String>) -> (r: String)
    ensures
        r@ == match home {
            Some(h) => h@ + "/Library/Keychains/login.keychain-db"@,
            None => "/Library/Keychains/login.keychain"@,
        },
{
    match home {
        Some(h) => {
            let mut v = chars_of(h.as_str());
            push_str(&mut v, "/Library/Keychains/login.keychain-db");
            string_of(v.as_slice())
        },
        None => "/Library/Keychains/login.keychain".to_string(),
    }
}

/// The certificate file that is installed: the one the sidecar reported, or
/// the default one in the data folder.
pub fn certificate_to_install(state: &SnifferState) -> (r: String)
    ensures
        r@ == match state.certificate_path {
            Some(p) => p@,
            None => join(state.data_dir@, "cobalt-capture-ca.pem"@),
        },
{
    match &state.certificate_path {
        Some(p) => p.clone(),
        None => {
            let p = join_exec(&chars_of(state.data_dir.as_str()), &chars_of("cobalt-capture-ca.pem"));
            string_of(p.as_slice())
        },
    }
}

/// The state once the certificate at `path` was installed and found
/// trusted.
pub fn mark_certificate_installed(state: &mut SnifferState, path: String)
    requires
        old(state).wf(),
    ensures
        final(state).wf(),
        final(state).certificate_path == Some(path),
        final(state).certificate_installed,
        final(state).certificate_fingerprint == old(state).certificate_fingerprint,
        final(state).message matches Some(m) && m@
            == "Local capture certificate installed and verified in the login keychain."@,
        final(state).status == old(state).status,
        final(state).captures == old(state).captures,
        final(state).descriptors == old(state).descriptors,
        final(state).proxy_active == old(state).proxy_active,
{
    state.certificate_path = Some(path);
    state.certificate_installed = true;
    state.message = Some(
        "Local capture certificate installed and verified in the login keychain.".to_string(),
    );
}

// ---------------------------------------------------------------------------
// Laws
// ---------------------------------------------------------------------------

/// Restoring undoes capture: capture points a service at `127.0.0.1` on the
/// capture port; a service found so gets back exactly its saved server and
/// port, switched on, or is switched off when its proxy was off; a service
/// that points anywhere else by then is left alone.
pub proof fn lemma_restore_undoes_capture(
    web: bool,
    service: Seq<char>,
    saved: (bool, Seq<char>, u16),
    current: (Seq<char>, u16),
    capture_port: u16,
)
    ensures
        capture_proxy_commands_spec(service, capture_port)[if web {
            0int
        } else {
            1int
        }] == seq![proxy_verbs(web).1, service, "127.0.0.1"@, dec_string(capture_port as nat)],
        current == ("127.0.0.1"@, capture_port) ==> restore_commands_spec(
            web,
            service,
            saved,
            current,
            capture_port,
        ) == Some(
            if saved.0 {
                seq![
                    seq![proxy_verbs(web).1, service, saved.1, dec_string(saved.2 as nat)],
                    seq![proxy_verbs(web).2, service, "on"@],
                ]
            } else {
                seq![seq![proxy_verbs(web).2, service, "off"@]]
            },
        ),
        current != ("127.0.0.1"@, capture_port) ==> restore_commands_spec(
            web,
            service,
            saved,
            current,
            capture_port,
        ) is None,
{
}

} // verus!
