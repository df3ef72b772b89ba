//! The hardware profile: one JSON document whose array under
//! `SPHardwareDataType` holds the record; each field is read under its
//! machine key, else under its human-readable key.

use crate::json::{
    element, get_element, get_member, get_str, get_text, json_document_of, member, parse_document,
    str_member, text_member, Json,
};
use crate::resolve::{first_present, lemma_all_absent, lemma_first_present_wins, resolve_first};
use crate::tool::RawOutput;
use vstd::prelude::*;

verus! {

/// The hardware descriptor; every field may be absent.
pub struct HardwareData {
    pub model_name: Option<String>,
    pub model_identifier: Option<String>,
    pub model_number: Option<String>,
    pub chip: Option<String>,
    pub total_number_of_cores: Option<String>,
    pub memory: Option<String>,
    pub system_firmware_version: Option<String>,
    pub os_loader_version: Option<String>,
    pub serial_number_system: Option<String>,
    pub hardware_uuid: Option<String>,
    pub provisioning_udid: Option<String>,
    pub activation_lock_status: Option<String>,
}

pub enum HardwareError {
    /// The profiling tool could not be started.
    ToolNotRun,
    /// The tool ran and failed; what it wrote to standard error.
    ToolFailed(String),
    /// Its output is not JSON; the parser's message.
    BadJson(String),
    /// The document has no array under `SPHardwareDataType`, or the array is empty.
    UnexpectedStructure,
}

/// Element 0 of the array under `SPHardwareDataType`.
pub open spec fn hardware_record(doc: Json) -> Option<Json> {
    match member(doc, "SPHardwareDataType"@) {
        Some(m) => element(m.value, 0),
        None => None,
    }
}

pub open spec fn pick(hw: Json, a: Seq<char>, b: Seq<char>) -> Option<String> {
    first_present(seq![str_member(hw, a), str_member(hw, b)])
}

/// Each field is the first non-empty string among its keys, in this order.
pub open spec fn hardware_agrees(r: HardwareData, hw: Json) -> bool {
    &&& r.model_name == pick(hw, "machine_name"@, "Model Name"@)
    &&& r.model_identifier == pick(hw, "machine_model"@, "Model Identifier"@)
    &&& r.model_number == first_present(seq![str_member(hw, "Model Number"@)])
    &&& r.chip == pick(hw, "chip_type"@, "Chip"@)
    &&& r.total_number_of_cores == first_present(
        seq![
            str_member(hw, "number_processors"@),
            str_member(hw, "Total Number of Cores"@),
            text_member(hw, "Total Number of Cores"@),
        ],
    )
    &&& r.memory == pick(hw, "physical_memory"@, "Memory"@)
    &&& r.system_firmware_version == pick(
        hw,
        "system_firmware_version"@,
        "System Firmware Version"@,
    )
    &&& r.os_loader_version == pick(hw, "os_loader_version"@, "OS Loader Version"@)
    &&& r.serial_number_system == pick(hw, "serial_number"@, "Serial Number (system)"@)
    &&& r.hardware_uuid == pick(hw, "hardware_uuid"@, "Hardware UUID"@)
    &&& r.provisioning_udid == pick(hw, "provisioning_udid"@, "Provisioning UDID"@)
    &&& r.activation_lock_status == pick(hw, "activation_lock_status"@, "Activation Lock Status"@)
}

/// A text that is there and not empty.
pub open spec fn present(o: Option<String>) -> bool {
    o is Some && o->0@.len() > 0
}

/// For a field read under two keys: a non-empty string under the first key wins, whatever
/// the second holds; with the first absent or empty, a non-empty string under the second
/// wins; with both absent or empty the field is absent.
pub proof fn lemma_pick(hw: Json, a: Seq<char>, b: Seq<char>)
    ensures
        present(str_member(hw, a)) ==> pick(hw, a, b) == str_member(hw, a),
        !present(str_member(hw, a)) && present(str_member(hw, b)) ==> pick(hw, a, b)
            == str_member(hw, b),
        !present(str_member(hw, a)) && !present(str_member(hw, b)) ==> pick(hw, a, b) is None,
{
    let c = seq![str_member(hw, a), str_member(hw, b)];
    if present(str_member(hw, a)) {
        lemma_first_present_wins(c, 0);
    } else if present(str_member(hw, b)) {
        assert(c[0] is None || c[0]->0@.len() == 0);
        lemma_first_present_wins(c, 1);
    } else {
        assert forall|j: int| 0 <= j < c.len() implies (#[trigger] c[j] is None || c[j]->0@.len()
            == 0) by {
            if j == 0 {
            } else {
                assert(c[1] == str_member(hw, b));
            }
        }
        lemma_all_absent(c);
    }
}

fn pick_exec(hw: &Json, a: &str, b: &str) -> (r: Option<String>)
    ensures
        r == pick(*hw, a@, b@),
{
    let mut c: Vec<Option<String>> = Vec::new();
    c.push(get_str(hw, a));
    c.push(get_str(hw, b));
    assert(c@ =~= seq![str_member(*hw, a@), str_member(*hw, b@)]);
    resolve_first(c)
}

/// The descriptor that a hardware record gives.
pub fn hardware_from_record(hw: &Json) -> (r: HardwareData)
    ensures
        hardware_agrees(r, *hw),
{
    let mut number: Vec<Option<String>> = Vec::new();
    number.push(get_str(hw, "Model Number"));
    assert(number@ =~= seq![str_member(*hw, "Model Number"@)]);
    let mut cores: Vec<Option<String>> = Vec::new();
    cores.push(get_str(hw, "number_processors"));
    cores.push(get_str(hw, "Total Number of Cores"));
    cores.push(get_text(hw, "Total Number of Cores"));
    assert(cores@ =~= seq![
        str_member(*hw, "number_processors"@),
        str_member(*hw, "Total Number of Cores"@),
        text_member(*hw, "Total Number of Cores"@),
    ]);
    HardwareData {
        model_name: pick_exec(hw, "machine_name", "Model Name"),
        model_identifier: pick_exec(hw, "machine_model", "Model Identifier"),
        model_number: resolve_first(number),
        chip: pick_exec(hw, "chip_type", "Chip"),
        total_number_of_cores: resolve_first(cores),
        memory: pick_exec(hw, "physical_memory", "Memory"),
        system_firmware_version: pick_exec(hw, "system_firmware_version", "System Firmware Version"),
        os_loader_version: pick_exec(hw, "os_loader_version", "OS Loader Version"),
        serial_number_system: pick_exec(hw, "serial_number", "Serial Number (system)"),
        hardware_uuid: pick_exec(hw, "hardware_uuid", "Hardware UUID"),
        provisioning_udid: pick_exec(hw, "provisioning_udid", "Provisioning UDID"),
        activation_lock_status: pick_exec(hw, "activation_lock_status", "Activation Lock Status"),
    }
}

/// The descriptor of a profile document; the record must be there.
pub fn hardware_from_document(doc: &Json) -> (r: Result<HardwareData, HardwareError>)
    ensures
        match hardware_record(*doc) {
            Some(hw) => r matches Ok(d) && hardware_agrees(d, hw),
            None => r matches Err(HardwareError::UnexpectedStructure),
        },
{
    let arr = match get_member(doc, "SPHardwareDataType") {
        Some(a) => a,
        None => {
            return Err(HardwareError::UnexpectedStructure);
        },
    };
    match get_element(arr, 0) {
        Some(hw) => Ok(hardware_from_record(hw)),
        None => Err(HardwareError::UnexpectedStructure),
    }
}

/// The descriptor from one run of the profiling tool. Failing to start, failing, output
/// that is not JSON and a document without the record are errors, in that order.
pub fn get_hardware_data(out: &RawOutput) -> (r: Result<HardwareData, HardwareError>)
    ensures
        !out.launched ==> r matches Err(HardwareError::ToolNotRun),
        out.launched && !out.success ==> (r matches Err(HardwareError::ToolFailed(m)) && m
            == out.stderr),
        out.launched && out.success ==> match json_document_of(out.stdout@) {
            None => r matches Err(HardwareError::BadJson(_)),
            Some(doc) => match hardware_record(doc) {
                Some(hw) => r matches Ok(d) && hardware_agrees(d, hw),
                None => r matches Err(HardwareError::UnexpectedStructure),
            },
        },
{
    if !out.launched {
        return Err(HardwareError::ToolNotRun);
    }
    if !out.success {
        return Err(HardwareError::ToolFailed(out.stderr.clone()));
    }
    match parse_document(out.stdout.as_str()) {
        Ok(doc) => hardware_from_document(&doc),
        Err(msg) => Err(HardwareError::BadJson(msg)),
    }
}

} // verus!
