use cobalt_core::sniffer::{
    fallback_service_candidates, interface_from_route_output, keychain_contains_fingerprint,
    parse_proxy_state, primary_proxy_services, service_has_ip_address, tun_proxy_name_from_ps,
};

#[test]
fn names_each_missing_proxy_field() {
    assert_eq!(
        parse_proxy_state("").unwrap_err(),
        "Missing Authenticated Proxy Enabled: in networksetup output"
    );
    assert_eq!(
        parse_proxy_state("Authenticated Proxy Enabled: 0\nServer: x\nPort: 1\n").unwrap_err(),
        "Missing Enabled: in networksetup output"
    );
    assert_eq!(
        parse_proxy_state("Enabled: No\nServer: \nAuthenticated Proxy Enabled: 0\n").unwrap_err(),
        "Missing Port: in networksetup output"
    );
    assert_eq!(
        parse_proxy_state("Enabled: No\nPort: 0\nAuthenticated Proxy Enabled: 0\n").unwrap_err(),
        "Missing Server: in networksetup output"
    );
    assert_eq!(
        parse_proxy_state("Enabled: No\nServer: \nPort: 70000\nAuthenticated Proxy Enabled: 0\n").unwrap_err(),
        "Invalid existing proxy port"
    );
    assert_eq!(
        parse_proxy_state("Enabled: YES\nServer: x\nPort: 1\nAuthenticated Proxy Enabled: yEs\n").unwrap_err(),
        "Cobalt will not overwrite an authenticated system proxy. Disable it manually or use a separate network service."
    );
    let off = parse_proxy_state("Enabled: No\nServer: \nPort: 0\nAuthenticated Proxy Enabled: 0\n").unwrap();
    assert!(!off.enabled);
    assert_eq!(off.server, "");
    assert_eq!(off.port, 0);
    assert!(!off.authenticated);
}

#[test]
fn reads_the_default_route_interface() {
    let out = "   route to: default\ndestination: default\n  gateway: 192.168.1.1\n  interface: en0\n      flags: <UP,GATEWAY>\n";
    assert_eq!(interface_from_route_output(out), Some("en0".to_string()));
    assert_eq!(interface_from_route_output("route: writing to routing socket: not in table\n"), None);
}

#[test]
fn lists_services_that_can_carry_a_proxy() {
    let order = "An asterisk (*) denotes that a network service is disabled.\n(1) Wi-Fi\n(Hardware Port: Wi-Fi, Device: en0)\n\n(2) Bluetooth PAN\n(3) USB Serial Port\n(*) Thunderbolt Bridge\n";
    assert_eq!(
        fallback_service_candidates(order),
        vec!["Wi-Fi".to_string(), "Bluetooth PAN".to_string(), "Thunderbolt Bridge".to_string()]
    );
    assert!(service_has_ip_address("DHCP Configuration\nIP address: 192.168.1.2\n"));
    assert!(!service_has_ip_address("DHCP Configuration\nIPv6: Automatic\n"));
}

#[test]
fn prefers_the_service_of_the_default_route() {
    assert_eq!(
        primary_proxy_services(Some("Wi-Fi".to_string()), Some("LAN".to_string())),
        Ok(vec!["Wi-Fi".to_string()])
    );
    assert_eq!(primary_proxy_services(None, Some("LAN".to_string())), Ok(vec!["LAN".to_string()]));
    assert_eq!(
        primary_proxy_services(None, None),
        Err("No active macOS network service was found for proxy capture.".to_string())
    );
}

#[test]
fn ignores_the_case_of_fingerprints() {
    let output = "SHA-256 hash:   aAbB01  \n";
    for fp in ["AABB01", "aabb01", "AaBb01"] {
        assert!(keychain_contains_fingerprint(output, fp));
    }
    assert!(!keychain_contains_fingerprint(output, "AABB0"));
    assert!(!keychain_contains_fingerprint("SHA-1 hash: AABB01\n", "AABB01"));
}

#[test]
fn prefers_the_proxy_tool_over_its_service() {
    let ps = "/Applications/Surge.app/Contents/MacOS/surge-service\n/Applications/Surge.app/Contents/MacOS/Surge\n";
    assert_eq!(tun_proxy_name_from_ps(ps), Some("Surge".to_string()));
    let only_service = "/Library/PrivilegedHelperTools/clash-verge-service\n";
    assert_eq!(tun_proxy_name_from_ps(only_service), Some("Clash-verge-service".to_string()));
}
