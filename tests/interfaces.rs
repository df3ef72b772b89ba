use host_telemetry::interfaces::parse_interfaces;
use host_telemetry::network::interfaces_from_output;
use host_telemetry::tool::RawOutput;

const DUMP: &str = "lo0: flags=8049<UP,LOOPBACK,RUNNING,MULTICAST> mtu 16384\n\
\toptions=1203<RXCSUM,TXCSUM,TXSTATUS,SW_TIMESTAMP>\n\
\tnd6 options=201<PERFORMNUD,DAD>\n\
en0: flags=8863<UP,BROADCAST,SMART,RUNNING,SIMPLEX,MULTICAST> mtu 1500\n\
\tether AA:BB:CC:DD:EE:FF\n\
\tinet6 fe80::1c2b:3d4e%en0 prefixlen 64 secured scopeid 0xe\n\
\tinet 192.168.1.5 netmask 0xffffff00 broadcast 192.168.1.255\n\
\tstatus: active\n";

#[test]
fn two_headers_give_two_interfaces_sorted_by_name() {
    let text = "en0: flags=8863<UP,BROADCAST> mtu 1500\n\tinet 192.168.1.5 netmask 0xffffff00\nlo0: flags=8049<UP,LOOPBACK> mtu 16384\n";
    let v = parse_interfaces(text);
    assert_eq!(v.len(), 2);
    assert_eq!(v[0].name, "en0");
    assert_eq!(v[0].ips, vec!["192.168.1.5".to_string()]);
    assert!(!v[0].is_loopback);
    assert_eq!(v[0].mtu, Some(1500));
    assert_eq!(v[1].name, "lo0");
    assert!(v[1].is_loopback);
    assert!(v[1].ips.is_empty());
    assert_eq!(v[1].mtu, Some(16384));
}

#[test]
fn blocks_are_read_from_their_own_lines_whatever_the_header_order() {
    let v = parse_interfaces(DUMP);
    assert_eq!(v.len(), 2);
    assert_eq!(v[0].name, "en0");
    assert_eq!(v[0].mac, Some("aa:bb:cc:dd:ee:ff".to_string()));
    assert_eq!(v[0].ips, vec!["192.168.1.5".to_string(), "fe80::1c2b:3d4e".to_string()]);
    assert!(v[0].is_up);
    assert!(!v[0].is_loopback);
    assert_eq!(v[1].name, "lo0");
    assert_eq!(v[1].mac, None);
    assert!(v[1].ips.is_empty());
    assert!(v[1].is_up);
    assert!(v[1].is_loopback);
}

#[test]
fn up_comes_from_status_or_flag_list() {
    let text = "gif0: flags=8010<POINTOPOINT,MULTICAST> mtu 1280\n\
utun0: flags=8051<up,POINTOPOINT,MULTICAST> mtu 1380\n\
en5: flags=8863<BROADCAST,SMART> mtu 1500\n\tStatus:   ACTIVE\n\
en6: flags=8863<UPPER,RUNNINGX> mtu 1500\n";
    let v = parse_interfaces(text);
    let names: Vec<&str> = v.iter().map(|i| i.name.as_str()).collect();
    assert_eq!(names, vec!["en5", "en6", "gif0", "utun0"]);
    assert!(v[0].is_up);
    assert!(!v[1].is_up);
    assert!(!v[2].is_up);
    assert!(v[3].is_up);
}

#[test]
fn zero_or_oversized_mtu_is_absent() {
    let text = "a0: flags=0<> mtu 0\nb0: flags=0<> mtu 99999999999\n";
    let v = parse_interfaces(text);
    assert_eq!(v.len(), 2);
    assert_eq!(v[0].mtu, None);
    assert_eq!(v[1].mtu, None);
}

#[test]
fn lines_that_are_not_headers_start_no_block() {
    let text = "garbage line\nen0 flags=1 mtu 1500\nen1: flags=1<UP>\nen2: flags=1<UP> mtu 9000\n";
    let v = parse_interfaces(text);
    assert_eq!(v.len(), 1);
    assert_eq!(v[0].name, "en2");
    assert_eq!(v[0].mtu, Some(9000));
    assert!(parse_interfaces("").is_empty());
}

#[test]
fn loopback_marker_in_block_counts() {
    let v = parse_interfaces("bridge0: flags=1<LOOPBACK> mtu 1500\n");
    assert!(v[0].is_loopback);
}

#[test]
fn failed_dump_fails_the_interface_list() {
    assert!(interfaces_from_output(&RawOutput::not_launched()).is_err());
    let failed = RawOutput::finished(false, DUMP.to_string(), String::new());
    assert!(interfaces_from_output(&failed).is_err());
    let ok = RawOutput::finished(true, DUMP.to_string(), String::new());
    assert_eq!(interfaces_from_output(&ok).unwrap().len(), 2);
}

#[test]
fn reordering_blocks_keeps_the_result() {
    let a = "en0: flags=8863<UP> mtu 1500\n\tinet 10.0.0.2 netmask 0xff000000\n";
    let b = "lo0: flags=8049<UP,LOOPBACK> mtu 16384\n\tinet 127.0.0.1 netmask 0xff000000\n";
    let c = "awdl0: flags=8943<UP> mtu 1484\n\tether 0a:0b:0c:0d:0e:0f\n";
    let one = parse_interfaces(&format!("{}{}{}", a, b, c));
    let two = parse_interfaces(&format!("{}{}{}", c, a, b));
    assert_eq!(one.len(), 3);
    assert_eq!(one.len(), two.len());
    for (x, y) in one.iter().zip(two.iter()) {
        assert_eq!(x.name, y.name);
        assert_eq!(x.mac, y.mac);
        assert_eq!(x.ips, y.ips);
        assert_eq!(x.is_up, y.is_up);
        assert_eq!(x.is_loopback, y.is_loopback);
        assert_eq!(x.mtu, y.mtu);
    }
    assert_eq!(one[0].name, "awdl0");
}
