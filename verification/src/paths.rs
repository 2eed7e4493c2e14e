//! Where the program keeps its files, from the folders that Windows reports.
use vstd::prelude::*;
use crate::config::{APP_DIR_NAME, ELEVATED_TEMPERATURE_AGENT_EXE_NAME, INSTALLED_EXE_NAME};
use crate::text::{eq_ignore_ascii_case, push_char, push_str, range_eq_ignore_ascii_case, to_chars};

verus! {

pub open spec fn is_separator(c: char) -> bool {
    c == '\\' || c == '/'
}

/// `base` is a bare drive such as `C:`, after which no separator is added.
pub open spec fn is_bare_drive(base: Seq<char>) -> bool {
    base.len() == 2 && base[1] == ':' && (('a' <= base[0] && base[0] <= 'z') || ('A' <= base[0]
        && base[0] <= 'Z'))
}

/// `PathBuf::push` on Windows for a `name` that is one plain component: a
/// backslash goes between unless `base` is empty, ends in a separator, or is
/// a bare drive.
pub open spec fn join_path(base: Seq<char>, name: Seq<char>) -> Seq<char> {
    if base.len() == 0 || is_separator(base.last()) || is_bare_drive(base) {
        base + name
    } else {
        base + seq!['\\'] + name
    }
}

/// `base` joined with the file or directory name `name`.
pub fn join(base: &str, name: &str) -> (r: String)
    ensures
        r@ == join_path(base@, name@),
{
    let chars = to_chars(base);
    let n = chars.len();
    let need_separator = if n == 0 {
        false
    } else {
        let last = chars[n - 1];
        let drive = n == 2 && chars[1] == ':' && (('a' <= chars[0] && chars[0] <= 'z') || ('A'
            <= chars[0] && chars[0] <= 'Z'));
        !(last == '\\' || last == '/') && !drive
    };
    let mut r = String::new();
    push_str(&mut r, base);
    if need_separator {
        push_char(&mut r, '\\');
    }
    push_str(&mut r, name);
    proof {
        assert(Seq::<char>::empty() + base@ =~= base@);
    }
    r
}

/// `%LOCALAPPDATA%\ESP32HardwareMonitor`, from `%LOCALAPPDATA%`.
pub fn app_dir(local_app_data: &str) -> (r: String)
    ensures
        r@ == join_path(local_app_data@, APP_DIR_NAME@),
{
    join(local_app_data, APP_DIR_NAME)
}

/// The installed program in the application directory.
pub fn installed_exe_path(app_dir: &str) -> (r: String)
    ensures
        r@ == join_path(app_dir@, INSTALLED_EXE_NAME@),
{
    join(app_dir, INSTALLED_EXE_NAME)
}

/// The log file in the application directory.
pub fn log_path(app_dir: &str) -> (r: String)
    ensures
        r@ == join_path(app_dir@, "monitor.log"@),
{
    join(app_dir, "monitor.log")
}

/// The protected program directory, from `%ProgramFiles%`.
pub fn protected_app_dir(program_files: &str) -> (r: String)
    ensures
        r@ == join_path(program_files@, APP_DIR_NAME@),
{
    join(program_files, APP_DIR_NAME)
}

/// The elevated temperature helper in the protected program directory.
pub fn elevated_temperature_agent_path(protected_app_dir: &str) -> (r: String)
    ensures
        r@ == join_path(protected_app_dir@, ELEVATED_TEMPERATURE_AGENT_EXE_NAME@),
{
    join(protected_app_dir, ELEVATED_TEMPERATURE_AGENT_EXE_NAME)
}

/// The script that registers the helper's scheduled task, in the protected program directory.
pub fn elevated_temperature_script_path(protected_app_dir: &str) -> (r: String)
    ensures
        r@ == join_path(protected_app_dir@, "RegisterElevatedTemperatureTask.ps1"@),
{
    join(protected_app_dir, "RegisterElevatedTemperatureTask.ps1")
}

/// The file that the elevated helper writes its reports to, from `%ProgramData%`.
pub fn elevated_temperature_output_path(program_data: &str) -> (r: String)
    ensures
        r@ == join_path(join_path(program_data@, APP_DIR_NAME@), "temperature.txt"@),
{
    let dir = join(program_data, APP_DIR_NAME);
    join(dir.as_str(), "temperature.txt")
}

/// Whether the running program, whose file name is `file_name`, is the
/// installed copy (compared as Windows does, ignoring ASCII case).
pub fn is_installed_agent(file_name: &str) -> (b: bool)
    ensures
        b == eq_ignore_ascii_case(file_name@, INSTALLED_EXE_NAME@),
{
    let chars = to_chars(file_name);
    let name = to_chars(INSTALLED_EXE_NAME);
    proof {
        assert(chars@.subrange(0, chars@.len() as int) =~= chars@);
    }
    range_eq_ignore_ascii_case(&chars, 0, chars.len(), &name)
}

} // verus!
