//! What one run of a diagnostic tool produced.

use vstd::prelude::*;

verus! {

/// The capture of one process run: whether it could be started at all, whether it
/// exited successfully, and what it wrote.
pub struct RawOutput {
    pub launched: bool,
    pub success: bool,
    pub stdout: String,
    pub stderr: String,
}

impl RawOutput {
    /// A run that could not be started.
    pub fn not_launched() -> (r: RawOutput)
        ensures
            !r.launched,
            !r.success,
            r.stdout@.len() == 0,
            r.stderr@.len() == 0,
    {
        RawOutput { launched: false, success: false, stdout: String::new(), stderr: String::new() }
    }

    /// A run that started and ended with the given status and output.
    pub fn finished(success: bool, stdout: String, stderr: String) -> (r: RawOutput)
        ensures
            r.launched,
            r.success == success,
            r.stdout == stdout,
            r.stderr == stderr,
    {
        RawOutput { launched: true, success, stdout, stderr }
    }

    /// Started and exited successfully.
    pub fn ok(&self) -> (r: bool)
        ensures
            r == (self.launched && self.success),
    {
        self.launched && self.success
    }
}

} // verus!
