use cobalt_core::sniffer::{
    fake_ip_route_in_netstat, keychain_contains_fingerprint, parse_proxy_state,
    service_for_interface, tun_proxy_name_from_ps,
};

#[test]
fn parses_a_non_authenticated_proxy_snapshot() {
    let state = parse_proxy_state("Enabled: Yes\nServer: proxy.example\nPort: 8080\nAuthenticated Proxy Enabled: No\n").unwrap();
    assert!(state.enabled);
    assert_eq!(state.server, "proxy.example");
    assert_eq!(state.port, 8080);
}

#[test]
fn refuses_to_replace_an_authenticated_proxy() {
    assert!(parse_proxy_state("Enabled: Yes\nServer: proxy.example\nPort: 8080\nAuthenticated Proxy Enabled: Yes\n").is_err());
}

#[test]
fn matches_only_the_current_certificate_fingerprint() {
    let output = "SHA-256 hash: AABBCC\nSHA-1 hash: 112233\nSHA-256 hash: DDEEFF\n";
    assert!(keychain_contains_fingerprint(output, "ddeeff"));
    assert!(!keychain_contains_fingerprint(output, "001122"));
}

#[test]
fn maps_the_service_order_to_an_interface() {
    let order = "(1) Wi-Fi\n(Hardware Port: Wi-Fi, Device: en0)\n\n(2) USB 10/100/1000 LAN\n(Hardware Port: USB 10/100/1000 LAN, Device: en7)\n";
    assert_eq!(service_for_interface(order, "en0"), Some("Wi-Fi".to_string()));
    assert_eq!(service_for_interface(order, "en7"), Some("USB 10/100/1000 LAN".to_string()));
    assert_eq!(service_for_interface(order, "en5"), None);
}

#[test]
fn detects_tun_mode_proxy_processes() {
    let ps = "/usr/bin/login\n/Applications/Clash Verge.app/Contents/MacOS/clash-verge\n/Applications/Clash Verge.app/Contents/MacOS/verge-mihomo\n/usr/bin/ssh\n";
    assert_eq!(tun_proxy_name_from_ps(ps), Some("Clash-verge".to_string()));
    let clean = "/usr/bin/login\n/sbin/launchd\n/usr/sbin/cfprefsd\n";
    assert_eq!(tun_proxy_name_from_ps(clean), None);
}

#[test]
fn detects_only_a_live_fake_ip_route() {
    let active = "Internet:\nDestination        Gateway            Flags           Netif Expire\ndefault            192.168.0.1        UGScg                 en0\n198.18.0.0/16      198.18.0.1          UGSc              utun4\n";
    assert!(fake_ip_route_in_netstat(active));
    let idle = "Internet:\ndefault            192.168.0.1        UGScg                 en0\n192.168.0          link#14            UCS                   en0\n";
    assert!(!fake_ip_route_in_netstat(idle));
}

#[test]
fn fake_ip_routes_are_those_into_198_18_0_0_15() {
    assert!(fake_ip_route_in_netstat("198.18/15          link#20            UCS             utun4\n"));
    assert!(fake_ip_route_in_netstat("  198.19.2.1         link#20            UHWIi           utun4\n"));
    assert!(fake_ip_route_in_netstat("198.19             link#20            UCS             utun4\n"));
    assert!(!fake_ip_route_in_netstat("198.180.0.0/16     192.168.0.1        UGSc            en0\n"));
    assert!(!fake_ip_route_in_netstat("198.180\n"));
    assert!(!fake_ip_route_in_netstat("198.1              192.168.0.1        UGSc            en0\n"));
    assert!(!fake_ip_route_in_netstat("10.0.0.0/8         198.18.0.1         UGSc            utun4\n"));
}

#[test]
fn matches_the_device_of_a_service_exactly() {
    let order = "(1) Thunderbolt Ethernet\n(Hardware Port: Thunderbolt Ethernet, Device: en10)\n\n(2) Wi-Fi\n(Hardware Port: Wi-Fi, Device: en1)\n";
    assert_eq!(service_for_interface(order, "en1"), Some("Wi-Fi".to_string()));
    assert_eq!(service_for_interface(order, "en10"), Some("Thunderbolt Ethernet".to_string()));
    let only_long = "(1) Thunderbolt Ethernet\n(Hardware Port: Thunderbolt Ethernet, Device: en10)\n";
    assert_eq!(service_for_interface(only_long, "en1"), None);
}
