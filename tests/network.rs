use host_telemetry::network::{
    dns_from_output, gateway_from_output, network_name, network_status, parse_dns_servers,
    parse_gateway, primary_interface, public_ip_from_reply, wants_public_ip, wireless_candidates,
    WifiAction, WifiSearch,
};
use host_telemetry::tool::RawOutput;

fn ran(stdout: &str) -> RawOutput {
    RawOutput::finished(true, stdout.to_string(), String::new())
}

#[test]
fn gateway_from_route_query() {
    let text = "   route to: default\ndestination: default\n       mask: default\n    gateway: 192.168.1.1\n  interface: en0\n";
    assert_eq!(parse_gateway(text), Some("192.168.1.1".to_string()));
    assert_eq!(parse_gateway("gateway:10.0.0.254"), Some("10.0.0.254".to_string()));
    assert_eq!(parse_gateway("gateway: fe80::1"), None);
    assert_eq!(gateway_from_output(&RawOutput::finished(false, text.to_string(), String::new())), None);
    assert_eq!(gateway_from_output(&ran(text)), Some("192.168.1.1".to_string()));
}

#[test]
fn dns_servers_are_sorted_and_unique() {
    let text = "resolver #1\n  nameserver[0] : 8.8.8.8\n  nameserver[1] : 1.1.1.1\nresolver #2\n  nameserver[0]: 8.8.8.8\n  nameserver[2] :fe80::1\n";
    assert_eq!(parse_dns_servers(text), vec!["1.1.1.1".to_string(), "8.8.8.8".to_string()]);
    assert!(parse_dns_servers("").is_empty());
    assert!(dns_from_output(&RawOutput::not_launched()).is_empty());
    assert_eq!(dns_from_output(&ran(text)).len(), 2);
}

#[test]
fn primary_interface_has_a_fallback_form() {
    assert_eq!(
        primary_interface("Network information\n\nIPv4 network interface information\n     en0 : flags      : 0x5 (IPv4,DNS)\n   REACH : flags 0x00000002 (Reachable)\n\n   Network interfaces: en0\n  Primary Interface: en0\n"),
        Some("en0".to_string())
    );
    assert_eq!(primary_interface("<dictionary> {\n  PrimaryInterface : en1\n}"), Some("en1".to_string()));
    assert_eq!(primary_interface("no interface"), None);
}

#[test]
fn network_name_is_the_rest_of_the_line() {
    assert_eq!(network_name("Current Wi-Fi Network: My Home  \n"), Some("My Home".to_string()));
    assert_eq!(network_name("current wifi network:Cafe"), Some("Cafe".to_string()));
    assert_eq!(network_name("You are not associated with an AirPort network.\n"), None);
    assert_eq!(network_name("Current Wi-Fi Network:   "), None);
}

#[test]
fn wireless_candidates_in_dump_order() {
    let dump = "lo0: flags=8049<UP> mtu 16384\nen0: flags=8863<UP> mtu 1500\n\tinet 1.2.3.4\nen12: flags=1<> mtu 1500\nbridge0: flags=1 mtu 1500\n";
    assert_eq!(wireless_candidates(dump), vec!["en0".to_string(), "en12".to_string()]);
}

fn query_of(a: &WifiAction) -> Option<String> {
    match a {
        WifiAction::QueryNetwork(i) => Some(i.clone()),
        _ => None,
    }
}

#[test]
fn wifi_search_uses_the_primary_interface() {
    let s = WifiSearch::start();
    assert!(matches!(s.action(), WifiAction::ReadNetworkInfo));
    let s = s.step(&ran("  Primary Interface: en0\n"));
    assert_eq!(query_of(&s.action()), Some("en0".to_string()));
    let s = s.step(&ran("Current Wi-Fi Network: Home\n"));
    assert!(matches!(s.action(), WifiAction::Done));
    let w = s.result().unwrap();
    assert_eq!(w.ssid, Some("Home".to_string()));
    assert_eq!(w.iface, Some("en0".to_string()));
    assert_eq!(w.bssid, None);
    assert_eq!(w.signal_dbm, None);
    assert_eq!(w.frequency_mhz, None);
}

#[test]
fn wifi_search_falls_back_to_candidates() {
    let s = WifiSearch::start().step(&ran("Primary Interface: en5\n"));
    let s = s.step(&ran("You are not associated with an AirPort network.\n"));
    assert!(matches!(s.action(), WifiAction::ListInterfaces));
    let s = s.step(&ran("en0: flags=1<UP> mtu 1500\nen1: flags=1<UP> mtu 1500\n"));
    assert_eq!(query_of(&s.action()), Some("en0".to_string()));
    let s = s.step(&RawOutput::not_launched());
    assert_eq!(query_of(&s.action()), Some("en1".to_string()));
    let s = s.step(&ran("Current Wi-Fi Network: Office\n"));
    let w = s.result().unwrap();
    assert_eq!(w.ssid, Some("Office".to_string()));
    assert_eq!(w.iface, Some("en1".to_string()));
}

#[test]
fn wifi_search_without_network_keeps_the_primary_interface() {
    let s = WifiSearch::start().step(&ran("Primary Interface: en5\n"));
    let s = s.step(&ran("not associated"));
    let s = s.step(&ran("en0: flags=1<UP> mtu 1500\n"));
    let s = s.step(&ran("not associated"));
    assert!(matches!(s.action(), WifiAction::Done));
    let w = s.result().unwrap();
    assert_eq!(w.ssid, None);
    assert_eq!(w.iface, Some("en5".to_string()));
}

#[test]
fn wifi_search_gives_nothing_when_the_summary_fails() {
    let s = WifiSearch::start().step(&RawOutput::finished(false, String::new(), String::new()));
    assert!(matches!(s.action(), WifiAction::Done));
    assert!(s.result().is_none());
    let s = WifiSearch::start().step(&ran("Primary Interface: en0\n"));
    let s = s.step(&RawOutput::not_launched());
    assert!(s.result().is_none());
}

#[test]
fn public_ip_from_echo_reply() {
    assert_eq!(public_ip_from_reply("{\"ip\":\"203.0.113.7\"}"), Some("203.0.113.7".to_string()));
    assert_eq!(public_ip_from_reply("{\"ip\":7}"), None);
    assert_eq!(public_ip_from_reply("not json"), None);
}

#[test]
fn offline_host_reports_no_public_ip() {
    assert!(!wants_public_ip(Some(true), false));
    assert!(wants_public_ip(Some(true), true));
    assert!(!wants_public_ip(None, true));
    assert!(!wants_public_ip(Some(false), true));
    let s = network_status(
        Vec::new(),
        None,
        None,
        Vec::new(),
        false,
        Some(true),
        Some("203.0.113.7".to_string()),
    );
    assert!(!s.online);
    assert_eq!(s.public_ip, None);
    let s = network_status(
        Vec::new(),
        None,
        Some("192.168.1.1".to_string()),
        vec!["1.1.1.1".to_string()],
        true,
        Some(true),
        Some("203.0.113.7".to_string()),
    );
    assert!(s.online);
    assert_eq!(s.public_ip, Some("203.0.113.7".to_string()));
    assert_eq!(s.default_gateway, Some("192.168.1.1".to_string()));
    assert_eq!(s.dns_servers, vec!["1.1.1.1".to_string()]);
}
