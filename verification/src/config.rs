//! Names shared by the installer, the agent and the elevated helper.
use vstd::prelude::*;

verus! {

/// The title of the program's message boxes.
pub const APP_TITLE: &'static str = "ESP32 Hardware Monitor";

/// The program's directory under `%LOCALAPPDATA%`, `%ProgramFiles%` and `%ProgramData%`.
pub const APP_DIR_NAME: &'static str = "ESP32HardwareMonitor";

/// The name of the installed copy of the program.
pub const INSTALLED_EXE_NAME: &'static str = "MonitorSetup.exe";

/// The name of the elevated temperature helper.
pub const ELEVATED_TEMPERATURE_AGENT_EXE_NAME: &'static str = "ESP32HardwareMonitorTemperatureAgent.exe";

/// The value under the current user's `Run` key that starts the agent at logon.
pub const RUN_VALUE_NAME: &'static str = "ESP32HardwareMonitor";

} // verus!
