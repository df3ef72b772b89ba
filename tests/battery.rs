use host_telemetry::battery::{
    battery_info, power_summary, read_registry, BatteryError, ChargeState,
};
use host_telemetry::tool::RawOutput;
use host_telemetry::units::{minutes_to_seconds, temperature_centi_celsius, voltage_millivolts};

fn ran(stdout: &str) -> RawOutput {
    RawOutput::finished(true, stdout.to_string(), String::new())
}

#[test]
fn minutes_become_seconds() {
    assert_eq!(minutes_to_seconds(45), 2700);
    assert_eq!(minutes_to_seconds(0), 0);
    assert_eq!(minutes_to_seconds(u32::MAX), 257698037700);
}

#[test]
fn temperature_scale_is_told_by_magnitude() {
    // Arguments are the raw reading in hundredths of its own unit.
    assert_eq!(temperature_centi_celsius(450000), 4500);
    assert_eq!(temperature_centi_celsius(4500), 4500);
    assert_eq!(temperature_centi_celsius(100000), 100000);
    assert_eq!(temperature_centi_celsius(100100), 1001);
    assert_eq!(temperature_centi_celsius(-500), -500);
    let r = read_registry("\"Temperature\" = 4500\n");
    assert_eq!(r.temperature_centi_c, Some(4500));
    let r = read_registry("\"Temperature\" = 45\n");
    assert_eq!(r.temperature_centi_c, Some(4500));
}

#[test]
fn voltage_scale_is_told_by_magnitude() {
    // Arguments are the raw reading in thousandths of its own unit.
    assert_eq!(voltage_millivolts(12650000), 12650);
    assert_eq!(voltage_millivolts(12000), 12000);
    assert_eq!(voltage_millivolts(12600), 12600);
}

#[test]
fn decimal_readings_are_scaled_in_fixed_point() {
    let r = read_registry("\"Voltage\" = 12.6\n\"Temperature\" = 30.5\n");
    assert_eq!(r.voltage_mv, Some(12600));
    assert_eq!(r.temperature_centi_c, Some(3050));
    let r = read_registry("\"Voltage\" = 12650.7\n\"Temperature\" = 3012.9\n");
    assert_eq!(r.voltage_mv, Some(12650));
    assert_eq!(r.temperature_centi_c, Some(3012));
    let r = read_registry("\"Voltage\" = .5\n\"Temperature\" = -2.25\n");
    assert_eq!(r.voltage_mv, Some(500));
    assert_eq!(r.temperature_centi_c, Some(-225));
    let r = read_registry("\"Voltage\" = -1\n\"Temperature\" = 1.2.3\n");
    assert_eq!(r.voltage_mv, None);
    assert_eq!(r.temperature_centi_c, None);
    let r = read_registry("\"Voltage\" = 12.\n\"Temperature\" = +7\n");
    assert_eq!(r.voltage_mv, Some(12000));
    assert_eq!(r.temperature_centi_c, Some(700));
}

#[test]
fn charging_registry_gives_cycle_count_and_time_to_full() {
    let r = read_registry("\"CycleCount\" = 123\n\"IsCharging\" = true\n\"AvgTimeToFull\" = 30\n");
    assert_eq!(r.cycle_count, Some(123));
    assert!(r.is_charging);
    assert_eq!(r.time_to_full_seconds, Some(1800));
}

#[test]
fn time_to_full_is_absent_when_not_charging() {
    let r = read_registry("\"CycleCount\" = 123\n\"IsCharging\" = false\n\"AvgTimeToFull\" = 30\n");
    assert_eq!(r.cycle_count, Some(123));
    assert_eq!(r.time_to_full_seconds, None);
    let r = read_registry("\"AvgTimeToFull\" = 30\n\"IsCharging\" = true\n");
    assert_eq!(r.time_to_full_seconds, None);
}

#[test]
fn registry_fields_and_units() {
    let text = "    | |   \"AppleRawCurrentCapacity\" = 4021\n\
    | |   \"AppleRawMaxCapacity\" = 4376\n\
    | |   \"DesignCapacity\" = 4382\n\
    | |   \"MaxCapacity\" = 100\n\
    | |   \"CurrentCapacity\" = 92\n\
    | |   \"TimeRemaining\" = 45\n\
    | |   \"Temperature\" = 3012\n\
    | |   \"Voltage\" = 12650\n\
    | |   \"Serial\" = \"F8Y1234\"\n\
    | |   \"DeviceName\" = \"bq40z651\"\n\
    | |   \"Manufacturer\" = \"SMP\"\n\
    | |   \"BatterySerial\" = \"\"\"\"\n\
    | |   \"CycleCount\" = not-a-number\n";
    let r = read_registry(text);
    assert_eq!(r.apple_raw_current_capacity, Some(4021));
    assert_eq!(r.apple_raw_max_capacity, Some(4376));
    assert_eq!(r.design_capacity, Some(4382));
    assert_eq!(r.max_capacity, Some(100));
    assert_eq!(r.current_capacity, Some(92));
    assert_eq!(r.time_to_empty_seconds, Some(2700));
    assert_eq!(r.temperature_centi_c, Some(3012));
    assert_eq!(r.voltage_mv, Some(12650));
    assert_eq!(r.serial_number, Some("F8Y1234".to_string()));
    assert_eq!(r.model, Some("bq40z651".to_string()));
    assert_eq!(r.vendor, Some("SMP".to_string()));
    assert_eq!(r.cycle_count, None);
    assert!(!r.is_charging);
}

#[test]
fn later_entries_replace_earlier_ones() {
    let r = read_registry("\"MaxCapacity\" = 90\n\"MaxCapacityOperation\" = 95\n\"Temperature\" = 45\n");
    assert_eq!(r.max_capacity, Some(95));
    assert_eq!(r.temperature_centi_c, Some(4500));
}

#[test]
fn power_summary_percentage_and_state() {
    let s = power_summary("Now drawing from 'Battery Power'\n -InternalBattery-0 (id=1234)\t93%; discharging; 4:12 remaining present: true\n");
    assert_eq!(s.percentage, Some(93));
    assert_eq!(s.state, ChargeState::Discharging);
    let s = power_summary("Now drawing from 'AC Power'\n -InternalBattery-0\t100%; charged; 0:00 remaining\n");
    assert_eq!(s.percentage, Some(100));
    assert_eq!(s.state, ChargeState::Charging);
    let s = power_summary("battery 1234% FULLY CHARGED");
    assert_eq!(s.percentage, None);
    assert_eq!(power_summary("150%").percentage, None);
    assert_eq!(power_summary("0%").percentage, Some(0));
    assert_eq!(s.state, ChargeState::Full);
    let s = power_summary("nothing to see");
    assert_eq!(s.percentage, None);
    assert_eq!(s.state, ChargeState::Unknown);
}

#[test]
fn battery_snapshot_merges_both_sources() {
    let info = battery_info(
        &ran("Now drawing from 'AC Power'\n 80%; charging;"),
        &ran("\"IsCharging\" = true\n\"AvgTimeToFull\" = 10\n\"CycleCount\" = 7\n"),
        1700000000,
    )
    .unwrap();
    assert_eq!(info.timestamp_unix, 1700000000);
    assert_eq!(info.batteries.len(), 1);
    let b = &info.batteries[0];
    assert_eq!(b.power.percentage, Some(80));
    assert_eq!(b.power.state, ChargeState::Charging);
    assert_eq!(b.registry.time_to_full_seconds, Some(600));
    assert_eq!(b.registry.cycle_count, Some(7));
}

#[test]
fn battery_snapshot_fails_when_a_tool_cannot_run() {
    let ok = ran("50%");
    assert_eq!(
        battery_info(&RawOutput::not_launched(), &ok, 0).err(),
        Some(BatteryError::PowerSummaryNotRun)
    );
    assert_eq!(
        battery_info(&ok, &RawOutput::not_launched(), 0).err(),
        Some(BatteryError::RegistryNotRun)
    );
    let failed = RawOutput::finished(false, "50%".to_string(), String::new());
    assert!(battery_info(&failed, &failed, 0).is_ok());
}
