//! Host telemetry: parsers for the text and JSON that native diagnostic tools
//! print, the per-field fallback policy, unit normalisation, and the assembly
//! of typed snapshots from tool outputs.

pub mod battery;
pub mod device;
pub mod hardware;
pub mod interfaces;
pub mod json;
pub mod kv;
pub mod network;
pub mod order;
pub mod resolve;
pub mod system;
pub mod text;
pub mod tool;
pub mod units;
pub mod version;
