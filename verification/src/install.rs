//! The decisions of installing: what to ask Windows for, and what its
//! answers mean.
use vstd::prelude::*;
use crate::temperature::{debug_exit_code, push_debug_exit_code};
use crate::text::{push_signed_decimal, push_str, signed_decimal, trim, trim_to_string};

verus! {

/// Running the program again with administrator rights, with these arguments.
pub struct ElevatedRequest {
    pub arguments: String,
}

/// Asks for the one-time elevated setup of the temperature helper.
pub fn request_elevated_temperature_install() -> (r: ElevatedRequest)
    ensures
        r.arguments@ == "--install-elevated-temperature"@,
{
    let mut arguments = String::new();
    push_str(&mut arguments, "--install-elevated-temperature");
    proof {
        assert(arguments@ =~= "--install-elevated-temperature"@);
    }
    ElevatedRequest { arguments }
}

/// Asks for the elevated removal of the temperature helper.
pub fn request_elevated_temperature_removal() -> (r: ElevatedRequest)
    ensures
        r.arguments@ == "--remove-elevated-temperature"@,
{
    let mut arguments = String::new();
    push_str(&mut arguments, "--remove-elevated-temperature");
    proof {
        assert(arguments@ =~= "--remove-elevated-temperature"@);
    }
    ElevatedRequest { arguments }
}

/// `ShellExecuteW` reports failure with a value of 32 or less.
pub open spec fn shell_execute_failed(result_code: isize) -> bool {
    result_code <= 32
}

fn failure_message(prefix: &str, result_code: isize) -> (m: String)
    ensures
        m@ == prefix@ + signed_decimal(result_code as int),
{
    let mut m = String::new();
    push_str(&mut m, prefix);
    push_signed_decimal(&mut m, result_code as i64);
    proof {
        assert(m@ =~= prefix@ + signed_decimal(result_code as int));
    }
    m
}

/// What the answer of `ShellExecuteW` to an elevated request means.
pub fn elevated_request_outcome(result_code: isize) -> (r: Result<(), String>)
    ensures
        r is Err <==> shell_execute_failed(result_code),
        r matches Err(m) ==> m@ == "无法请求一次性温度权限设置，ShellExecute 错误码: "@ + signed_decimal(
            result_code as int,
        ),
{
    if result_code <= 32 {
        Err(failure_message("无法请求一次性温度权限设置，ShellExecute 错误码: ", result_code))
    } else {
        Ok(())
    }
}

/// What the answer of `ShellExecuteW` to starting the PawnIO installer means.
pub fn pawnio_launch_outcome(result_code: isize) -> (r: Result<(), String>)
    ensures
        r is Err <==> shell_execute_failed(result_code),
        r matches Err(m) ==> m@ == "无法启动 PawnIO 安装器，ShellExecute 错误码: "@ + signed_decimal(
            result_code as int,
        ),
{
    if result_code <= 32 {
        Err(failure_message("无法启动 PawnIO 安装器，ShellExecute 错误码: ", result_code))
    } else {
        Ok(())
    }
}

/// The command line stored under the `Run` key: the quoted program path and `--agent`.
pub fn autostart_command(exe_path: &str) -> (r: String)
    ensures
        r@ == "\""@ + exe_path@ + "\" --agent"@,
{
    let mut r = String::new();
    push_str(&mut r, "\"");
    push_str(&mut r, exe_path);
    push_str(&mut r, "\" --agent");
    proof {
        assert(r@ =~= "\""@ + exe_path@ + "\" --agent"@);
    }
    r
}

// ---------------------------------------------------------------------
// Access rules of the protected directories
// ---------------------------------------------------------------------
pub open spec fn system_sid() -> Seq<char> {
    "*S-1-5-18"@
}

pub open spec fn administrators_sid() -> Seq<char> {
    "*S-1-5-32-544"@
}

pub open spec fn users_sid() -> Seq<char> {
    "*S-1-5-32-545"@
}

/// The `icacls` arguments that give a directory tree to SYSTEM.
pub open spec fn owner_arguments() -> Seq<Seq<char>> {
    seq!["/setowner"@, system_sid(), "/T"@]
}

/// The `icacls` arguments that replace a directory tree's access rules: full
/// control for SYSTEM and the administrators, read and execute for the users
/// when `allow_users_read`.
pub open spec fn grant_arguments(allow_users_read: bool) -> Seq<Seq<char>> {
    let base = seq![
        "/inheritance:r"@,
        "/grant:r"@,
        system_sid() + ":F"@,
        administrators_sid() + ":F"@,
        system_sid() + ":(OI)(CI)F"@,
        administrators_sid() + ":(OI)(CI)F"@,
    ];
    let users = if allow_users_read {
        seq![users_sid() + ":RX"@, users_sid() + ":(OI)(CI)RX"@]
    } else {
        Seq::empty()
    };
    base + users + seq!["/T"@]
}

fn argument(parts: &str, suffix: &str) -> (r: String)
    ensures
        r@ == parts@ + suffix@,
{
    let mut r = String::new();
    push_str(&mut r, parts);
    push_str(&mut r, suffix);
    proof {
        assert(r@ =~= parts@ + suffix@);
    }
    r
}

fn plain(text: &str) -> (r: String)
    ensures
        r@ == text@,
{
    let mut r = String::new();
    push_str(&mut r, text);
    proof {
        assert(r@ =~= text@);
    }
    r
}

pub open spec fn views(v: Seq<String>) -> Seq<Seq<char>> {
    v.map_values(|s: String| s@)
}

/// The arguments of `icacls` that make SYSTEM the owner of a directory tree.
pub fn icacls_owner_arguments() -> (r: Vec<String>)
    ensures
        views(r@) == owner_arguments(),
{
    let mut r: Vec<String> = Vec::new();
    r.push(plain("/setowner"));
    r.push(plain("*S-1-5-18"));
    r.push(plain("/T"));
    proof {
        assert(views(r@) =~= owner_arguments());
    }
    r
}

/// The arguments of `icacls` that set the access rules of a protected directory tree.
pub fn icacls_grant_arguments(allow_users_read: bool) -> (r: Vec<String>)
    ensures
        views(r@) == grant_arguments(allow_users_read),
{
    let mut r: Vec<String> = Vec::new();
    r.push(plain("/inheritance:r"));
    r.push(plain("/grant:r"));
    r.push(argument("*S-1-5-18", ":F"));
    r.push(argument("*S-1-5-32-544", ":F"));
    r.push(argument("*S-1-5-18", ":(OI)(CI)F"));
    r.push(argument("*S-1-5-32-544", ":(OI)(CI)F"));
    if allow_users_read {
        r.push(argument("*S-1-5-32-545", ":RX"));
        r.push(argument("*S-1-5-32-545", ":(OI)(CI)RX"));
    }
    r.push(plain("/T"));
    proof {
        assert(views(r@) =~= grant_arguments(allow_users_read));
    }
    r
}

/// The users never get more than read and execute on a protected directory,
/// and get that only when it is asked for.
pub proof fn lemma_users_read_only(allow_users_read: bool)
    ensures
        forall|i: int|
            0 <= i < grant_arguments(allow_users_read).len() && (#[trigger] grant_arguments(
                allow_users_read,
            )[i]).len() >= users_sid().len() && grant_arguments(allow_users_read)[i].take(
                users_sid().len() as int,
            ) == users_sid() ==> allow_users_read && (grant_arguments(allow_users_read)[i]
                == users_sid() + ":RX"@ || grant_arguments(allow_users_read)[i] == users_sid()
                + ":(OI)(CI)RX"@),
{
    reveal_strlit("*S-1-5-32-545");
    reveal_strlit("*S-1-5-18");
    reveal_strlit("*S-1-5-32-544");
    reveal_strlit("/inheritance:r");
    reveal_strlit("/grant:r");
    reveal_strlit("/T");
    let g = grant_arguments(allow_users_read);
    assert forall|i: int|
        0 <= i < g.len() && (#[trigger] g[i]).len() >= users_sid().len() && g[i].take(
            users_sid().len() as int,
        ) == users_sid() implies allow_users_read && (g[i] == users_sid() + ":RX"@ || g[i]
        == users_sid() + ":(OI)(CI)RX"@) by {
        let n = users_sid().len() as int;
        if i < 6 || i == g.len() - 1 {
            // Every other argument differs from the users' SID within its first characters.
            if i == 0 {
                assert(g[i].take(n)[1] != users_sid()[1]);
            } else if i == 1 {
                assert(g[i].take(n)[1] != users_sid()[1]);
            } else if i == 2 || i == 4 {
                assert(g[i][7] == system_sid()[7]);
                assert(g[i].take(n)[7] != users_sid()[7]);
            } else if i == 3 || i == 5 {
                assert(g[i][12] == administrators_sid()[12]);
                assert(g[i].take(n)[12] != users_sid()[12]);
            } else {
                assert(g[i].take(n)[1] != users_sid()[1]);
            }
        }
    }
}

// ---------------------------------------------------------------------
// The scheduled task of the elevated helper
// ---------------------------------------------------------------------
/// The PowerShell options that run one script file.
pub open spec fn powershell_prefix(script_path: Seq<char>) -> Seq<Seq<char>> {
    seq!["-NoProfile"@, "-NonInteractive"@, "-ExecutionPolicy"@, "Bypass"@, "-File"@, script_path]
}

fn push_plain(v: &mut Vec<String>, text: &str)
    ensures
        views(final(v)@) == views(old(v)@).push(text@),
{
    let s = plain(text);
    v.push(s);
    proof {
        assert(views(v@) =~= views(old(v)@).push(text@));
    }
}

fn powershell_arguments(script_path: &str) -> (r: Vec<String>)
    ensures
        views(r@) == powershell_prefix(script_path@),
{
    let mut r: Vec<String> = Vec::new();
    push_plain(&mut r, "-NoProfile");
    push_plain(&mut r, "-NonInteractive");
    push_plain(&mut r, "-ExecutionPolicy");
    push_plain(&mut r, "Bypass");
    push_plain(&mut r, "-File");
    push_plain(&mut r, script_path);
    proof {
        assert(views(r@) =~= powershell_prefix(script_path@));
    }
    r
}

/// The `powershell.exe` arguments that register the helper's scheduled task.
pub fn register_task_arguments(script_path: &str, program_dir: &str, agent_path: &str) -> (r: Vec<
    String,
>)
    ensures
        views(r@) == powershell_prefix(script_path@) + seq![
            "-ProgramDirectory"@,
            program_dir@,
            "-AgentPath"@,
            agent_path@,
        ],
{
    let mut r = powershell_arguments(script_path);
    push_plain(&mut r, "-ProgramDirectory");
    push_plain(&mut r, program_dir);
    push_plain(&mut r, "-AgentPath");
    push_plain(&mut r, agent_path);
    proof {
        assert(views(r@) =~= powershell_prefix(script_path@) + seq![
            "-ProgramDirectory"@,
            program_dir@,
            "-AgentPath"@,
            agent_path@,
        ]);
    }
    r
}

/// The `powershell.exe` arguments that remove the helper's scheduled task.
pub fn remove_task_arguments(script_path: &str) -> (r: Vec<String>)
    ensures
        views(r@) == powershell_prefix(script_path@).push("-Remove"@),
{
    let mut r = powershell_arguments(script_path);
    push_plain(&mut r, "-Remove");
    r
}

/// The error text of a failed registration of the scheduled task.
pub fn register_task_failure_message(code: Option<i32>, stdout: &str, stderr: &str) -> (m: String)
    ensures
        m@ == "无法注册受保护的温度任务（code="@ + debug_exit_code(code) + "）："@ + trim(stdout@) + " "@
            + trim(stderr@),
{
    let mut m = String::new();
    push_str(&mut m, "无法注册受保护的温度任务（code=");
    push_debug_exit_code(&mut m, code);
    push_str(&mut m, "）：");
    let out = trim_to_string(stdout);
    push_str(&mut m, out.as_str());
    push_str(&mut m, " ");
    let err = trim_to_string(stderr);
    push_str(&mut m, err.as_str());
    proof {
        assert(m@ =~= "无法注册受保护的温度任务（code="@ + debug_exit_code(code) + "）："@ + trim(stdout@)
            + " "@ + trim(stderr@));
    }
    m
}

/// The error text of a failed removal of the scheduled task.
pub fn remove_task_failure_message(stdout: &str, stderr: &str) -> (m: String)
    ensures
        m@ == "无法移除受保护的温度任务："@ + trim(stdout@) + " "@ + trim(stderr@),
{
    let mut m = String::new();
    push_str(&mut m, "无法移除受保护的温度任务：");
    let out = trim_to_string(stdout);
    push_str(&mut m, out.as_str());
    push_str(&mut m, " ");
    let err = trim_to_string(stderr);
    push_str(&mut m, err.as_str());
    proof {
        assert(m@ =~= "无法移除受保护的温度任务："@ + trim(stdout@) + " "@ + trim(stderr@));
    }
    m
}

/// The error text of a failed `icacls` run on `dir`.
pub fn protect_directory_failure_message(dir: &str, stdout: &str, stderr: &str) -> (m: String)
    ensures
        m@ == "无法保护目录 "@ + dir@ + ": "@ + trim(stdout@) + " "@ + trim(stderr@),
{
    let mut m = String::new();
    push_str(&mut m, "无法保护目录 ");
    push_str(&mut m, dir);
    push_str(&mut m, ": ");
    let out = trim_to_string(stdout);
    push_str(&mut m, out.as_str());
    push_str(&mut m, " ");
    let err = trim_to_string(stderr);
    push_str(&mut m, err.as_str());
    proof {
        assert(m@ =~= "无法保护目录 "@ + dir@ + ": "@ + trim(stdout@) + " "@ + trim(stderr@));
    }
    m
}

// ---------------------------------------------------------------------
// Copying the program into place
// ---------------------------------------------------------------------
/// How often a copy of the program is tried while the old copy is locked.
pub const COPY_ATTEMPTS: u32 = 20;

/// The Windows errors of a file in use: sharing (32) and lock (33) violations.
pub fn is_retryable_file_lock(raw_os_error: Option<i32>) -> (b: bool)
    ensures
        b == (raw_os_error == Some(32i32) || raw_os_error == Some(33i32)),
{
    match raw_os_error {
        Some(code) => code == 32 || code == 33,
        None => false,
    }
}

/// What to do after a failed copy.
#[derive(Clone, Copy, Debug, PartialEq, Eq, Structural)]
pub enum CopyFailure {
    /// Wait a moment and try again.
    Retry,
    /// The installed program is in use; it must be stopped first.
    UpdateBlocked,
    /// The program could not be copied.
    CopyFailed,
}

/// The decision after attempt number `attempt` (from 0) failed.
pub fn copy_failure(attempt: u32, retryable: bool, destination_exists: bool) -> (r: CopyFailure)
    requires
        attempt < COPY_ATTEMPTS,
    ensures
        r == if retryable && attempt + 1 < COPY_ATTEMPTS {
            CopyFailure::Retry
        } else if destination_exists {
            CopyFailure::UpdateBlocked
        } else {
            CopyFailure::CopyFailed
        },
{
    if retryable && attempt + 1 < COPY_ATTEMPTS {
        CopyFailure::Retry
    } else if destination_exists {
        CopyFailure::UpdateBlocked
    } else {
        CopyFailure::CopyFailed
    }
}

/// The error text of a copy that cannot go on.
pub fn copy_failure_message(failure: CopyFailure, destination: &str, error: &str) -> (m: String)
    requires
        failure != CopyFailure::Retry,
    ensures
        failure == CopyFailure::UpdateBlocked ==> m@ == "无法更新已安装的程序 "@ + destination@ + ": "@
            + error@ + "。请退出后台监控后重试。"@,
        failure == CopyFailure::CopyFailed ==> m@ == "无法复制程序到安装目录 "@ + destination@ + ": "@
            + error@,
{
    let mut m = String::new();
    match failure {
        CopyFailure::UpdateBlocked => {
            push_str(&mut m, "无法更新已安装的程序 ");
            push_str(&mut m, destination);
            push_str(&mut m, ": ");
            push_str(&mut m, error);
            push_str(&mut m, "。请退出后台监控后重试。");
            proof {
                assert(m@ =~= "无法更新已安装的程序 "@ + destination@ + ": "@ + error@ + "。请退出后台监控后重试。"@);
            }
        },
        _ => {
            push_str(&mut m, "无法复制程序到安装目录 ");
            push_str(&mut m, destination);
            push_str(&mut m, ": ");
            push_str(&mut m, error);
            proof {
                assert(m@ =~= "无法复制程序到安装目录 "@ + destination@ + ": "@ + error@);
            }
        },
    }
    m
}

/// The last attempt is never retried, so at most `COPY_ATTEMPTS` copies are made.
pub proof fn lemma_copy_attempts_bounded(attempt: u32, retryable: bool, destination_exists: bool)
    requires
        attempt == COPY_ATTEMPTS - 1,
    ensures
        (if retryable && attempt + 1 < COPY_ATTEMPTS {
            CopyFailure::Retry
        } else if destination_exists {
            CopyFailure::UpdateBlocked
        } else {
            CopyFailure::CopyFailed
        }) != CopyFailure::Retry,
{
}

} // verus!
