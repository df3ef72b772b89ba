use host_telemetry::hardware::{get_hardware_data, HardwareError};
use host_telemetry::resolve::resolve_first;
use host_telemetry::tool::RawOutput;

fn ran(stdout: &str) -> RawOutput {
    RawOutput::finished(true, stdout.to_string(), String::new())
}

#[test]
fn first_present_candidate_wins() {
    let c = vec![None, Some("x".to_string()), Some("y".to_string())];
    assert_eq!(resolve_first(c), Some("x".to_string()));
    assert_eq!(resolve_first(vec![None, None, None]), None);
    assert_eq!(resolve_first(vec![Some(String::new()), Some("y".to_string())]), Some("y".to_string()));
    assert_eq!(resolve_first(Vec::new()), None);
}

#[test]
fn hardware_fields_from_machine_and_readable_keys() {
    let doc = r#"{"SPHardwareDataType":[{"_name":"hardware_overview","machine_name":"MacBook Pro","Model Identifier":"Mac14,10","chip_type":"Apple M2 Pro","Total Number of Cores":12,"physical_memory":"16 GB","serial_number":"ABC123","platform_UUID":"x"}]}"#;
    let h = get_hardware_data(&ran(doc)).ok().unwrap();
    assert_eq!(h.model_name, Some("MacBook Pro".to_string()));
    assert_eq!(h.model_identifier, Some("Mac14,10".to_string()));
    assert_eq!(h.model_number, None);
    assert_eq!(h.chip, Some("Apple M2 Pro".to_string()));
    assert_eq!(h.total_number_of_cores, Some("12".to_string()));
    assert_eq!(h.memory, Some("16 GB".to_string()));
    assert_eq!(h.serial_number_system, Some("ABC123".to_string()));
    assert_eq!(h.hardware_uuid, None);
    assert_eq!(h.activation_lock_status, None);
}

#[test]
fn machine_key_is_preferred_over_readable_key() {
    let doc = r#"{"SPHardwareDataType":[{"number_processors":"proc 8:4:4","Total Number of Cores":"8","Model Name":"Old","machine_name":"New"}]}"#;
    let h = get_hardware_data(&ran(doc)).ok().unwrap();
    assert_eq!(h.total_number_of_cores, Some("proc 8:4:4".to_string()));
    assert_eq!(h.model_name, Some("New".to_string()));
}

#[test]
fn hardware_errors() {
    assert!(matches!(get_hardware_data(&RawOutput::not_launched()), Err(HardwareError::ToolNotRun)));
    let failed = RawOutput::finished(false, String::new(), "denied".to_string());
    match get_hardware_data(&failed) {
        Err(HardwareError::ToolFailed(m)) => assert_eq!(m, "denied"),
        _ => panic!("expected a tool failure"),
    }
    assert!(matches!(get_hardware_data(&ran("{not json")), Err(HardwareError::BadJson(_))));
    assert!(matches!(get_hardware_data(&ran("{}")), Err(HardwareError::UnexpectedStructure)));
    assert!(matches!(
        get_hardware_data(&ran(r#"{"SPHardwareDataType":[]}"#)),
        Err(HardwareError::UnexpectedStructure)
    ));
    assert!(matches!(
        get_hardware_data(&ran(r#"{"SPHardwareDataType":{"0":{}}}"#)),
        Err(HardwareError::UnexpectedStructure)
    ));
}

#[test]
fn non_object_record_gives_all_fields_absent() {
    let h = get_hardware_data(&ran(r#"{"SPHardwareDataType":[5]}"#)).ok().unwrap();
    assert_eq!(h.model_name, None);
    assert_eq!(h.total_number_of_cores, None);
}
