use host_telemetry::device::{boot_seconds, boot_time_utc, device_info, registry_property};
use host_telemetry::kv::scan_entries;
use host_telemetry::tool::RawOutput;

fn ran(stdout: &str) -> RawOutput {
    RawOutput::finished(true, stdout.to_string(), String::new())
}

#[test]
fn quoted_angle_and_hex_forms_give_the_value() {
    let text = "  \"K\" = \"V\"\n";
    assert_eq!(registry_property(text, "K"), Some("V".to_string()));
    let text = "  \"K\" = <\"V\">\n";
    assert_eq!(registry_property(text, "K"), Some("V".to_string()));
    let text = "  \"K\" = <68 65 78>\n";
    assert_eq!(registry_property(text, "K"), Some("hex".to_string()));
}

#[test]
fn hex_bytes_that_are_not_utf8_give_nothing() {
    assert_eq!(registry_property("\"K\" = <ff fe>", "K"), None);
}

#[test]
fn hex_token_too_large_for_a_byte_is_skipped() {
    assert_eq!(registry_property("\"K\" = <68 165 69>", "K"), Some("hi".to_string()));
}

#[test]
fn first_entry_for_the_key_wins_and_others_are_ignored() {
    let text = "\"other\" = \"x\"\n\"IOPlatformUUID\" = \"AAAA-1111\"\n\"IOPlatformUUID\" = \"BBBB\"\n";
    assert_eq!(registry_property(text, "IOPlatformUUID"), Some("AAAA-1111".to_string()));
    assert_eq!(registry_property(text, "other"), Some("x".to_string()));
    assert_eq!(registry_property(text, "missing"), None);
}

#[test]
fn scanner_keeps_every_entry_with_trimmed_values() {
    let text = "| |   \"CycleCount\" = 123  \n| | \"Serial\" = \"ABC\"\nno entry here\n\"A_b9\" = x y\r\n";
    let entries = scan_entries(text);
    assert_eq!(
        entries,
        vec![
            ("CycleCount".to_string(), "123".to_string()),
            ("Serial".to_string(), "\"ABC\"".to_string()),
            ("A_b9".to_string(), "x y".to_string()),
        ]
    );
}

#[test]
fn scanner_needs_white_space_around_the_equals_sign() {
    assert!(scan_entries("\"Key\"=5\n\"Other\" =5\n").is_empty());
}

#[test]
fn boot_time_is_formatted_in_utc() {
    let report = "{ sec = 1700000000, usec = 123456 } Tue Nov 14 22:13:20 2023";
    assert_eq!(boot_seconds(report), Some(1700000000));
    assert_eq!(boot_time_utc(report), Some("2023-11-14T22:13:20Z".to_string()));
    assert_eq!(boot_time_utc("no boot time"), None);
}

#[test]
fn device_info_reads_registry_and_boot_report() {
    let registry = ran(
        "+-o J314sAP  <class IOPlatformExpertDevice>\n    \"IOPlatformSerialNumber\" = \"C02XYZ\"\n    \"IOPlatformUUID\" = \"1234-ABCD\"\n    \"model\" = <\"MacBookPro18,3\">\n",
    );
    let boot = ran("{ sec = 0, usec = 0 }");
    let d = device_info(&registry, &boot, 42);
    assert_eq!(d.serial_number, Some("C02XYZ".to_string()));
    assert_eq!(d.hardware_uuid, Some("1234-ABCD".to_string()));
    assert_eq!(d.model_identifier, Some("MacBookPro18,3".to_string()));
    assert_eq!(d.boot_time_utc, Some("1970-01-01T00:00:00Z".to_string()));
    assert_eq!(d.uptime_seconds, 42);
}

#[test]
fn device_info_degrades_when_tools_cannot_run() {
    let d = device_info(&RawOutput::not_launched(), &RawOutput::not_launched(), 7);
    assert_eq!(d.serial_number, None);
    assert_eq!(d.hardware_uuid, None);
    assert_eq!(d.model_identifier, None);
    assert_eq!(d.boot_time_utc, None);
    assert_eq!(d.uptime_seconds, 7);
}

#[test]
fn hex_tokens_in_any_case_and_spacing() {
    assert_eq!(registry_property("\"K\" = <  4A 4b  >", "K"), Some("JK".to_string()));
    assert_eq!(registry_property("\"K\" = <48   69 0021>", "K"), Some("Hi!".to_string()));
    assert_eq!(registry_property("\"K\" = <6>", "K"), Some("\u{6}".to_string()));
}
