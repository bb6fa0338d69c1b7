//! What the app's commands answer with, apart from disks and errors.
use vstd::prelude::*;
use crate::models::str_eq;

verus! {

/// The app's version and platform.
#[derive(Debug)]
pub struct AppInfo {
    pub version: String,
    /// `windows` or `linux`: lets the UI hide platform-only actions (drive
    /// letters only exist on Windows).
    pub platform: &'static str,
}

/// Whether an operation was carried out.
#[derive(Debug, Clone, Copy, PartialEq, Eq, Structural)]
pub struct OperationOutcome {
    pub applied: bool,
}

/// The app info for `version` on the operating system `os`.
pub fn app_info(version: &str, os: &str) -> (r: AppInfo)
    ensures
        r.version@ == version@,
        r.platform@ == (if os@ == "windows"@ {
            "windows"@
        } else {
            "linux"@
        }),
{
    AppInfo {
        version: String::from_str(version),
        platform: if str_eq(os, "windows") {
            "windows"
        } else {
            "linux"
        },
    }
}

} // verus!
