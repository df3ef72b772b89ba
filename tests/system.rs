use host_telemetry::system::{memory_kib, temperature_readings, SystemInfo};
use host_telemetry::tool::RawOutput;
use host_telemetry::units::{kib_of_bytes, mib_of_bytes};
use host_telemetry::version::{find_marketing_name, product_version, version_map, MacOSMapEntry};

#[test]
fn temperatures_by_kind() {
    let report = "**** SMC sensors ****\n\nCPU die temperature: 69.54 C\nGPU die temperature: 51.2 C\nFan: 1200 rpm\n  Battery temperature: 30.1 C  \nAmbient temperature: -.- C\nCPU temperature: 70 C\n";
    let t = temperature_readings(report);
    assert_eq!(t.cpu, Some("70".to_string()));
    assert_eq!(t.gpu, Some("51.2".to_string()));
    assert_eq!(t.others, vec![("Battery temperature: 30.1 C".to_string(), "30.1".to_string())]);
}

#[test]
fn temperatures_absent_without_sensor_lines() {
    let t = temperature_readings("");
    assert_eq!(t.cpu, None);
    assert_eq!(t.gpu, None);
    assert!(t.others.is_empty());
}

#[test]
fn memory_conversions() {
    assert_eq!(kib_of_bytes(17179869184), 16777216);
    assert_eq!(mib_of_bytes(17179869184), 16384);
    assert_eq!(memory_kib(2048, 1023), (2, 0));
    let s = SystemInfo::from_platform(
        Some("Darwin".to_string()),
        Some("14.1".to_string()),
        None,
        8,
        17179869184,
        1048575,
        Some("host".to_string()),
    );
    assert_eq!(s.total_memory_mb, 16384);
    assert_eq!(s.available_memory_mb, 0);
    assert_eq!(s.cpu_count, 8);
}

#[test]
fn product_version_is_trimmed() {
    let out = RawOutput::finished(true, "14.1.2\n".to_string(), String::new());
    assert_eq!(product_version(&out), Some("14.1.2".to_string()));
    assert_eq!(product_version(&RawOutput::not_launched()), None);
}

#[test]
fn marketing_name_lookup() {
    let map = vec![
        MacOSMapEntry { product_version: "13".to_string(), marketing_name: "Ventura".to_string() },
        MacOSMapEntry { product_version: "14".to_string(), marketing_name: "Sonoma".to_string() },
        MacOSMapEntry { product_version: "14".to_string(), marketing_name: "Other".to_string() },
    ];
    assert_eq!(find_marketing_name("14", &map), Some("Sonoma".to_string()));
    assert_eq!(find_marketing_name("15", &map), None);
}

#[test]
fn version_table_from_json() {
    let rows = version_map(r#"{"14": "Sonoma", "13": "Ventura"}"#);
    let mut pairs: Vec<(String, String)> =
        rows.into_iter().map(|e| (e.product_version, e.marketing_name)).collect();
    pairs.sort();
    assert_eq!(
        pairs,
        vec![
            ("13".to_string(), "Ventura".to_string()),
            ("14".to_string(), "Sonoma".to_string()),
        ]
    );
    assert!(version_map(r#"{"14": 14}"#).is_empty());
    assert!(version_map("[]").is_empty());
    assert!(version_map("").is_empty());
}
