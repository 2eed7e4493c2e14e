use esp32_hardware_monitor::paths::{
    app_dir, elevated_temperature_agent_path, elevated_temperature_output_path,
    elevated_temperature_script_path, installed_exe_path, is_installed_agent, join, log_path,
    protected_app_dir,
};

#[test]
fn join_adds_one_backslash() {
    assert_eq!(join("C:\\Users", "a.txt"), "C:\\Users\\a.txt");
    assert_eq!(join("C:\\Users\\", "a.txt"), "C:\\Users\\a.txt");
    assert_eq!(join("C:/Users/", "a.txt"), "C:/Users/a.txt");
    assert_eq!(join("", "a.txt"), "a.txt");
    assert_eq!(join("C:", "a.txt"), "C:a.txt");
    assert_eq!(join("C:\\", "a.txt"), "C:\\a.txt");
    assert_eq!(join("1:", "a.txt"), "1:\\a.txt");
}

#[test]
fn program_paths() {
    let app = app_dir("C:\\Users\\me\\AppData\\Local");
    assert_eq!(app, "C:\\Users\\me\\AppData\\Local\\ESP32HardwareMonitor");
    assert_eq!(
        installed_exe_path(&app),
        "C:\\Users\\me\\AppData\\Local\\ESP32HardwareMonitor\\MonitorSetup.exe"
    );
    assert_eq!(log_path(&app), "C:\\Users\\me\\AppData\\Local\\ESP32HardwareMonitor\\monitor.log");
    let protected = protected_app_dir("C:\\Program Files");
    assert_eq!(protected, "C:\\Program Files\\ESP32HardwareMonitor");
    assert_eq!(
        elevated_temperature_agent_path(&protected),
        "C:\\Program Files\\ESP32HardwareMonitor\\ESP32HardwareMonitorTemperatureAgent.exe"
    );
    assert_eq!(
        elevated_temperature_script_path(&protected),
        "C:\\Program Files\\ESP32HardwareMonitor\\RegisterElevatedTemperatureTask.ps1"
    );
    assert_eq!(
        elevated_temperature_output_path("C:\\ProgramData"),
        "C:\\ProgramData\\ESP32HardwareMonitor\\temperature.txt"
    );
}

#[test]
fn installed_agent_name_ignores_case() {
    assert!(is_installed_agent("MonitorSetup.exe"));
    assert!(is_installed_agent("monitorsetup.EXE"));
    assert!(!is_installed_agent("MonitorSetup (1).exe"));
    assert!(!is_installed_agent(""));
}
