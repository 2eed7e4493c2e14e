use esp32_hardware_monitor::install::{
    autostart_command, copy_failure, copy_failure_message, elevated_request_outcome,
    icacls_grant_arguments, icacls_owner_arguments, is_retryable_file_lock,
    pawnio_launch_outcome, protect_directory_failure_message, register_task_arguments,
    register_task_failure_message, remove_task_arguments, remove_task_failure_message,
    request_elevated_temperature_install, request_elevated_temperature_removal, CopyFailure,
    COPY_ATTEMPTS,
};

#[test]
fn elevated_requests_name_their_operation() {
    assert_eq!(request_elevated_temperature_install().arguments, "--install-elevated-temperature");
    assert_eq!(request_elevated_temperature_removal().arguments, "--remove-elevated-temperature");
}

#[test]
fn shell_execute_answers() {
    assert_eq!(elevated_request_outcome(33), Ok(()));
    assert_eq!(elevated_request_outcome(42), Ok(()));
    assert_eq!(
        elevated_request_outcome(32),
        Err("无法请求一次性温度权限设置，ShellExecute 错误码: 32".to_string())
    );
    assert_eq!(
        elevated_request_outcome(5),
        Err("无法请求一次性温度权限设置，ShellExecute 错误码: 5".to_string())
    );
    assert_eq!(
        elevated_request_outcome(-1),
        Err("无法请求一次性温度权限设置，ShellExecute 错误码: -1".to_string())
    );
    assert_eq!(pawnio_launch_outcome(100), Ok(()));
    assert_eq!(
        pawnio_launch_outcome(2),
        Err("无法启动 PawnIO 安装器，ShellExecute 错误码: 2".to_string())
    );
    assert_eq!(
        pawnio_launch_outcome(isize::MIN),
        Err(format!("无法启动 PawnIO 安装器，ShellExecute 错误码: {}", isize::MIN))
    );
}

#[test]
fn autostart_command_quotes_the_path() {
    assert_eq!(
        autostart_command("C:\\Users\\me\\AppData\\Local\\ESP32HardwareMonitor\\MonitorSetup.exe"),
        "\"C:\\Users\\me\\AppData\\Local\\ESP32HardwareMonitor\\MonitorSetup.exe\" --agent"
    );
}

#[test]
fn icacls_arguments() {
    assert_eq!(icacls_owner_arguments(), ["/setowner", "*S-1-5-18", "/T"]);
    assert_eq!(
        icacls_grant_arguments(false),
        [
            "/inheritance:r",
            "/grant:r",
            "*S-1-5-18:F",
            "*S-1-5-32-544:F",
            "*S-1-5-18:(OI)(CI)F",
            "*S-1-5-32-544:(OI)(CI)F",
            "/T"
        ]
    );
    let with_users = icacls_grant_arguments(true);
    assert_eq!(with_users.len(), 9);
    assert_eq!(with_users[6], "*S-1-5-32-545:RX");
    assert_eq!(with_users[7], "*S-1-5-32-545:(OI)(CI)RX");
    assert_eq!(with_users[8], "/T");
    for arg in icacls_grant_arguments(false) {
        assert!(!arg.starts_with("*S-1-5-32-545"));
    }
}

#[test]
fn task_script_arguments() {
    assert_eq!(
        register_task_arguments("C:\\P\\Register.ps1", "C:\\P", "C:\\P\\Agent.exe"),
        [
            "-NoProfile",
            "-NonInteractive",
            "-ExecutionPolicy",
            "Bypass",
            "-File",
            "C:\\P\\Register.ps1",
            "-ProgramDirectory",
            "C:\\P",
            "-AgentPath",
            "C:\\P\\Agent.exe"
        ]
    );
    assert_eq!(
        remove_task_arguments("s.ps1"),
        ["-NoProfile", "-NonInteractive", "-ExecutionPolicy", "Bypass", "-File", "s.ps1", "-Remove"]
    );
}

#[test]
fn task_failure_messages() {
    assert_eq!(
        register_task_failure_message(Some(1), " out\n", "err "),
        "无法注册受保护的温度任务（code=Some(1)）：out err"
    );
    assert_eq!(
        register_task_failure_message(None, "", ""),
        "无法注册受保护的温度任务（code=None）： "
    );
    assert_eq!(remove_task_failure_message("a", "\tb"), "无法移除受保护的温度任务：a b");
    assert_eq!(
        protect_directory_failure_message("C:\\P", "x\r\n", ""),
        "无法保护目录 C:\\P: x "
    );
}

#[test]
fn retryable_file_locks() {
    assert!(is_retryable_file_lock(Some(32)));
    assert!(is_retryable_file_lock(Some(33)));
    assert!(!is_retryable_file_lock(Some(5)));
    assert!(!is_retryable_file_lock(None));
}

#[test]
fn copy_retries_until_the_last_attempt() {
    assert_eq!(copy_failure(0, true, true), CopyFailure::Retry);
    assert_eq!(copy_failure(COPY_ATTEMPTS - 2, true, false), CopyFailure::Retry);
    assert_eq!(copy_failure(COPY_ATTEMPTS - 1, true, true), CopyFailure::UpdateBlocked);
    assert_eq!(copy_failure(COPY_ATTEMPTS - 1, true, false), CopyFailure::CopyFailed);
    assert_eq!(copy_failure(0, false, true), CopyFailure::UpdateBlocked);
    assert_eq!(copy_failure(0, false, false), CopyFailure::CopyFailed);
}

#[test]
fn copy_failure_messages() {
    assert_eq!(
        copy_failure_message(CopyFailure::UpdateBlocked, "C:\\A\\MonitorSetup.exe", "locked"),
        "无法更新已安装的程序 C:\\A\\MonitorSetup.exe: locked。请退出后台监控后重试。"
    );
    assert_eq!(
        copy_failure_message(CopyFailure::CopyFailed, "D:\\x.exe", "denied"),
        "无法复制程序到安装目录 D:\\x.exe: denied"
    );
}
