use cobalt_core::capture::SnifferState;
use cobalt_core::proxy_session::{
    capture_proxy_commands, certificate_to_install, enable_failure_message, enable_precheck,
    login_keychain_path, mark_certificate_installed, mark_proxy_active, not_listening_message,
    proxy_endpoint, proxy_snapshot_path, read_proxy_command, restore_commands,
    restore_failure_entry, restore_outcome, start_command, tun_conflict_message,
    unreachable_proxy_message, SidecarCommand,
};
use cobalt_core::sniffer::ProxyState;

fn strings(v: &[&str]) -> Vec<String> {
    v.iter().map(|s| s.to_string()).collect()
}

fn proxy(enabled: bool, server: &str, port: u16) -> ProxyState {
    ProxyState { enabled, server: server.to_string(), port, authenticated: false }
}

#[test]
fn names_sidecar_commands() {
    let mut s = SnifferState::new("/data".to_string());
    s.upstream = Some("http://127.0.0.1:7897".to_string());
    match start_command(&s) {
        SidecarCommand::Start { port, upstream_proxy } => {
            assert_eq!(port, 8899);
            assert_eq!(upstream_proxy, "http://127.0.0.1:7897");
        }
        _ => panic!("expected a start command"),
    }
    let r = SidecarCommand::ResolveDownload { resource_id: "abc".to_string() };
    assert_eq!(r.name(), "resolve_download");
    assert_eq!(r.request_id(), "resolve:abc");
    assert_eq!(SidecarCommand::Stop.name(), "stop");
    assert_eq!(SidecarCommand::Clear.request_id(), "clear");
}

#[test]
fn checks_before_switching_the_system_proxy() {
    let mut s = SnifferState::new("/data".to_string());
    assert_eq!(enable_precheck(&s).unwrap_err(), "Start the resource sniffer before enabling its system proxy.");
    s.status = "running".to_string();
    assert_eq!(
        enable_precheck(&s).unwrap_err(),
        "Install and verify Cobalt's local capture certificate before enabling the system proxy."
    );
    s.certificate_installed = true;
    assert!(enable_precheck(&s).is_ok());
    assert_eq!(
        tun_conflict_message("Clash-verge"),
        "TUN-mode proxy (Clash-verge) is running. It conflicts with local capture: WeChat Channels may fail to open. Turn off TUN mode, or use the Channels web version in a browser instead."
    );
    assert_eq!(
        not_listening_message(8899),
        "The capture proxy is not actually listening on 127.0.0.1:8899. Stop and start capture, then retry."
    );
}

#[test]
fn finds_the_upstream_proxy_address() {
    assert_eq!(proxy_endpoint("http://127.0.0.1:7897"), Ok("127.0.0.1:7897".to_string()));
    assert_eq!(proxy_endpoint("http://proxy.example"), Ok("proxy.example:80".to_string()));
    assert_eq!(proxy_endpoint("socks5://h"), Err("Proxy URL (socks5://h) has no port".to_string()));
    assert_eq!(proxy_endpoint("unix:/path"), Err("Proxy URL (unix:/path) has no host".to_string()));
    assert_eq!(
        proxy_endpoint("not a url"),
        Err("Invalid proxy URL (not a url): relative URL without a base".to_string())
    );
    assert_eq!(
        unreachable_proxy_message("http://127.0.0.1:7897"),
        "Cobalt's configured proxy (http://127.0.0.1:7897) is not reachable. Start it, or disable \"Use proxy\" in Cobalt settings, before enabling the system proxy."
    );
}

#[test]
fn points_a_service_at_the_capture_proxy() {
    assert_eq!(
        capture_proxy_commands("Wi-Fi", 8899),
        vec![
            strings(&["-setwebproxy", "Wi-Fi", "127.0.0.1", "8899"]),
            strings(&["-setsecurewebproxy", "Wi-Fi", "127.0.0.1", "8899"]),
            strings(&["-setwebproxystate", "Wi-Fi", "on"]),
            strings(&["-setsecurewebproxystate", "Wi-Fi", "on"]),
        ]
    );
    assert_eq!(
        enable_failure_message("boom", &Ok(())),
        "Failed to enable the system proxy: boom The previous proxy configuration was restored."
    );
    assert_eq!(
        enable_failure_message("boom", &Err("denied".to_string())),
        "Failed to enable the system proxy: boom Rollback also failed: denied"
    );
    let mut s = SnifferState::new("/data".to_string());
    mark_proxy_active(&mut s);
    assert!(s.proxy_active);
}

#[test]
fn restores_only_services_still_on_the_capture_proxy() {
    let capture = proxy(true, "127.0.0.1", 8899);
    assert_eq!(
        restore_commands(true, "Wi-Fi", &proxy(true, "proxy.example", 8080), &capture, 8899),
        Some(vec![
            strings(&["-setwebproxy", "Wi-Fi", "proxy.example", "8080"]),
            strings(&["-setwebproxystate", "Wi-Fi", "on"]),
        ])
    );
    assert_eq!(
        restore_commands(false, "Wi-Fi", &proxy(false, "", 0), &capture, 8899),
        Some(vec![strings(&["-setsecurewebproxystate", "Wi-Fi", "off"])])
    );
    assert_eq!(restore_commands(true, "Wi-Fi", &proxy(false, "", 0), &proxy(true, "10.0.0.1", 8899), 8899), None);
    assert_eq!(restore_commands(true, "Wi-Fi", &proxy(false, "", 0), &proxy(true, "127.0.0.1", 9000), 8899), None);
    assert_eq!(read_proxy_command(false, "Wi-Fi"), strings(&["-getsecurewebproxy", "Wi-Fi"]));
}

#[test]
fn reports_restoration_failures() {
    assert_eq!(restore_failure_entry("Wi-Fi", true, "no access"), "Wi-Fi (web): no access");
    assert_eq!(restore_failure_entry("LAN", false, "x"), "LAN (secure): x");
    assert_eq!(restore_outcome(&Vec::new()), Ok(()));
    assert_eq!(
        restore_outcome(&strings(&["a", "b"])),
        Err("Could not fully restore the system proxy: a; b".to_string())
    );
    assert_eq!(
        restore_outcome(&strings(&["only"])),
        Err("Could not fully restore the system proxy: only".to_string())
    );
}

#[test]
fn places_certificate_and_session_files() {
    let mut s = SnifferState::new("/data".to_string());
    assert_eq!(proxy_snapshot_path(&s), "/data/sniffer-proxy-session.json");
    assert_eq!(certificate_to_install(&s), "/data/cobalt-capture-ca.pem");
    s.certificate_path = None;
    assert_eq!(certificate_to_install(&s), "/data/cobalt-capture-ca.pem");
    mark_certificate_installed(&mut s, "/x/ca.pem".to_string());
    assert!(s.certificate_installed);
    assert_eq!(s.certificate_path, Some("/x/ca.pem".to_string()));
    assert_eq!(login_keychain_path(Some("/Users/me".to_string())), "/Users/me/Library/Keychains/login.keychain-db");
    assert_eq!(login_keychain_path(None), "/Library/Keychains/login.keychain");
}
