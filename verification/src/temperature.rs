//! Temperature readings: their text on the serial line, the `KEY=value`
//! reports of the probe and of the elevated helper, and the sampling schedule.
use vstd::prelude::*;
use crate::fields::{
    any_field_is, field, field_separator, field_value, field_value_range, has_field,
    has_field_exec, lemma_field_facts, lemma_first_stripped_at, lemma_not_prefix,
    lemma_split_first_field, lemma_split_single, lemma_trim_newline, no_separator, split,
};
use crate::text::{
    all_digits, ascii_lower, decimal, eq_ignore_ascii_case, is_whitespace, lemma_decimal_digits,
    lemma_trim_noop, parse_i32, parse_i32_range, parse_u64, parse_u64_range, push_char,
    push_decimal, push_signed_decimal, push_str, range_eq_ignore_ascii_case, signed_decimal,
    signed_value, starts_with, to_chars, trim, trim_range, trim_to_string, unsigned_digits,
};

verus! {

/// The last CPU and GPU temperatures, in degrees Celsius.
#[derive(Clone, Copy, Debug, PartialEq, Eq, Structural)]
pub struct TemperatureReading {
    pub cpu: Option<u8>,
    pub gpu: Option<u8>,
}

impl Default for TemperatureReading {
    fn default() -> (r: Self)
        ensures
            r == no_reading(),
    {
        TemperatureReading { cpu: None, gpu: None }
    }
}

/// The reading that holds no temperature.
pub open spec fn no_reading() -> TemperatureReading {
    TemperatureReading { cpu: None, gpu: None }
}

/// How long the probe waits between two runs: ten seconds, in nanoseconds.
pub const TEMPERATURE_INTERVAL_NANOS: u128 = 10_000_000_000;

/// How old the elevated helper's report may be: 35 seconds.
pub const ELEVATED_TEMPERATURE_MAX_AGE_SECS: u64 = 35;

/// The same limit in nanoseconds.
pub const ELEVATED_TEMPERATURE_MAX_AGE_NANOS: u128 = 35_000_000_000;

// ---------------------------------------------------------------------
// Specification of the text formats
// ---------------------------------------------------------------------
pub open spec fn na_text() -> Seq<char> {
    seq!['N', 'A']
}

/// The text of a temperature on the serial line: its decimal digits, or `NA`.
pub open spec fn temperature_text(value: Option<u8>) -> Seq<char> {
    match value {
        Some(v) => decimal(v as nat),
        None => na_text(),
    }
}

pub open spec fn cpu_temp_key() -> Seq<char> {
    seq!['C', 'P', 'U', '_', 'T', 'E', 'M', 'P']
}

pub open spec fn gpu_temp_key() -> Seq<char> {
    seq!['G', 'P', 'U', '_', 'T', 'E', 'M', 'P']
}

pub open spec fn timestamp_prefix() -> Seq<char> {
    seq!['T', 'I', 'M', 'E', 'S', 'T', 'A', 'M', 'P', '=']
}

pub open spec fn version_one_field() -> Seq<char> {
    seq!['V', 'E', 'R', 'S', 'I', 'O', 'N', '=', '1']
}

/// A parsed temperature limited to the range the displays show, 0 to 199.
pub open spec fn clamp_temperature(n: i32) -> u8 {
    if n < 0 {
        0
    } else if n > 199 {
        199
    } else {
        n as u8
    }
}

/// The temperature that the text after `KEY=` gives: `None` for `NA` (any
/// case), for nothing, and for text that is not an `i32`.
pub open spec fn temperature_value(value: Seq<char>) -> Option<u8> {
    let v = trim(value);
    if eq_ignore_ascii_case(v, na_text()) || v.len() == 0 {
        None
    } else {
        match parse_i32(v) {
            Some(n) => Some(clamp_temperature(n)),
            None => None,
        }
    }
}

/// The temperature that the first `key=` field of `line` gives.
pub open spec fn temperature_field(line: Seq<char>, key: Seq<char>) -> Option<u8> {
    match field_value(line, key.push('=')) {
        Some(v) => temperature_value(v),
        None => None,
    }
}

pub open spec fn reading_of(line: Seq<char>) -> TemperatureReading {
    TemperatureReading {
        cpu: temperature_field(line, cpu_temp_key()),
        gpu: temperature_field(line, gpu_temp_key()),
    }
}

/// The `TIMESTAMP=` field of a report.
pub open spec fn timestamp_of(line: Seq<char>) -> Option<u64> {
    match field_value(line, timestamp_prefix()) {
        Some(v) => parse_u64(trim(v)),
        None => None,
    }
}

pub open spec fn abs_diff(a: u64, b: u64) -> int {
    if a >= b {
        a - b
    } else {
        b - a
    }
}

/// What the elevated helper's report says at `now` (seconds since the epoch):
/// the reading when the report is of version 1 and its timestamp lies within
/// 35 seconds of `now`.
pub open spec fn elevated_reading_of(line: Seq<char>, now: u64) -> Option<TemperatureReading> {
    if !has_field(line, version_one_field()) {
        None
    } else {
        match timestamp_of(line) {
            None => None,
            Some(ts) => if abs_diff(now, ts) > ELEVATED_TEMPERATURE_MAX_AGE_SECS {
                None
            } else {
                Some(reading_of(line))
            },
        }
    }
}

/// A temperature as the parser gives it back: limited to 199.
pub open spec fn clamped(value: Option<u8>) -> Option<u8> {
    match value {
        Some(v) => Some(if v > 199 {
            199u8
        } else {
            v
        }),
        None => None,
    }
}

pub proof fn lemma_text_facts(value: Option<u8>)
    ensures
        no_separator(temperature_text(value), field_separator()),
        temperature_text(value).len() > 0,
        !is_whitespace(temperature_text(value)[0]),
        !is_whitespace(temperature_text(value).last()),
        temperature_value(temperature_text(value)) == clamped(value),
{
    let t = temperature_text(value);
    match value {
        Some(v) => {
            lemma_decimal_digits(v as nat);
            assert(no_separator(t, field_separator())) by {
                assert forall|i: int| 0 <= i < t.len() implies #[trigger] t[i] != field_separator() by {
                    assert(all_digits(t));
                }
            }
            assert(all_digits(t));
            assert('0' <= t[0] <= '9');
            assert('0' <= t.last() <= '9');
            lemma_trim_noop(t);
            assert(!eq_ignore_ascii_case(t, na_text())) by {
                if t.len() == 2 {
                    assert(ascii_lower(t[0]) == t[0]);
                }
            }
            assert(unsigned_digits(t) == Some(v as nat));
            assert(t[0] != '+' && t[0] != '-');
            assert(signed_value(t) == Some(v as int));
            assert(parse_i32(t) == Some(v as i32));
        },
        None => {
            assert(t =~= na_text());
            assert(no_separator(t, field_separator()));
            lemma_trim_noop(t);
            assert(eq_ignore_ascii_case(t, na_text()));
        },
    }
}

// ---------------------------------------------------------------------
// Executable parsing and formatting
// ---------------------------------------------------------------------
/// The text that stands for a temperature on the serial line.
pub fn serial_temperature(value: Option<u8>) -> (r: String)
    ensures
        r@ == temperature_text(value),
{
    match value {
        Some(v) => {
            let mut r = String::new();
            push_decimal(&mut r, v as u64);
            proof {
                assert(Seq::<char>::empty() + decimal(v as nat) =~= decimal(v as nat));
            }
            r
        },
        None => {
            let mut r = String::new();
            push_char(&mut r, 'N');
            push_char(&mut r, 'A');
            proof {
                assert(r@ =~= na_text());
            }
            r
        },
    }
}

fn key_chars(key: &str) -> (r: Vec<char>)
    ensures
        r@ == key@.push('='),
{
    let mut r = to_chars(key);
    r.push('=');
    r
}

fn temperature_in(line: &Vec<char>, prefix: &Vec<char>) -> (r: Option<u8>)
    ensures
        r == match field_value(line@, prefix@) {
            Some(v) => temperature_value(v),
            None => None,
        },
{
    match field_value_range(line, prefix) {
        None => None,
        Some((a, b)) => {
            let (ta, tb) = trim_range(line, a, b);
            let mut na: Vec<char> = Vec::new();
            na.push('N');
            na.push('A');
            proof {
                assert(na@ =~= na_text());
            }
            if range_eq_ignore_ascii_case(line, ta, tb, &na) || ta == tb {
                return None;
            }
            match parse_i32_range(line, ta, tb) {
                None => None,
                Some(n) => {
                    let t: u8 = if n < 0 {
                        0
                    } else if n > 199 {
                        199
                    } else {
                        n as u8
                    };
                    Some(t)
                },
            }
        },
    }
}

/// The temperature in the first `key=` field of `line`.
pub fn parse_temperature_field(line: &str, key: &str) -> (r: Option<u8>)
    ensures
        r == temperature_field(line@, key@),
{
    let chars = to_chars(line);
    let prefix = key_chars(key);
    temperature_in(&chars, &prefix)
}

fn reading_in(line: &Vec<char>) -> (r: TemperatureReading)
    ensures
        r == reading_of(line@),
{
    let cpu_key = key_chars("CPU_TEMP");
    let gpu_key = key_chars("GPU_TEMP");
    proof {
        reveal_strlit("CPU_TEMP");
        reveal_strlit("GPU_TEMP");
        assert(cpu_key@ =~= cpu_temp_key().push('='));
        assert(gpu_key@ =~= gpu_temp_key().push('='));
    }
    TemperatureReading { cpu: temperature_in(line, &cpu_key), gpu: temperature_in(line, &gpu_key) }
}

/// The CPU and GPU temperatures of a report line.
pub fn parse_temperature_reading(line: &str) -> (r: TemperatureReading)
    ensures
        r == reading_of(line@),
{
    let chars = to_chars(line);
    reading_in(&chars)
}

fn timestamp_in(line: &Vec<char>) -> (r: Option<u64>)
    ensures
        r == timestamp_of(line@),
{
    let prefix = to_chars("TIMESTAMP=");
    proof {
        reveal_strlit("TIMESTAMP=");
        assert(prefix@ =~= timestamp_prefix());
    }
    match field_value_range(line, &prefix) {
        None => None,
        Some((a, b)) => {
            let (ta, tb) = trim_range(line, a, b);
            parse_u64_range(line, ta, tb)
        },
    }
}

/// The `TIMESTAMP=` field of a report, in seconds since the epoch.
pub fn parse_timestamp(line: &str) -> (r: Option<u64>)
    ensures
        r == timestamp_of(line@),
{
    let chars = to_chars(line);
    timestamp_in(&chars)
}

/// Whether the elevated helper's report file, last written `age_nanos` ago,
/// is recent enough to read; `None` when the file was written after now.
pub fn elevated_file_is_fresh(age_nanos: Option<u128>) -> (b: bool)
    ensures
        b == match age_nanos {
            Some(age) => age <= ELEVATED_TEMPERATURE_MAX_AGE_NANOS,
            None => false,
        },
{
    match age_nanos {
        Some(age) => age <= ELEVATED_TEMPERATURE_MAX_AGE_NANOS,
        None => false,
    }
}

/// The reading of the elevated helper's report `line` at `now_unix_secs`, or
/// `None` when the report is not of version 1, has no timestamp, or is stale.
pub fn elevated_reading(line: &str, now_unix_secs: Option<u64>) -> (r: Option<TemperatureReading>)
    ensures
        r == match now_unix_secs {
            Some(now) => elevated_reading_of(line@, now),
            None => None,
        },
{
    let chars = to_chars(line);
    let version = to_chars("VERSION=1");
    proof {
        reveal_strlit("VERSION=1");
        assert(version@ =~= version_one_field());
    }
    if !has_field_exec(&chars, &version) {
        return None;
    }
    let ts = match timestamp_in(&chars) {
        Some(ts) => ts,
        None => return None,
    };
    let now = match now_unix_secs {
        Some(now) => now,
        None => return None,
    };
    let diff = if now >= ts {
        now - ts
    } else {
        ts - now
    };
    if diff > ELEVATED_TEMPERATURE_MAX_AGE_SECS {
        return None;
    }
    Some(reading_in(&chars))
}

/// The report that the elevated helper's output file starts with, before the
/// helper has written a reading.
pub fn initial_elevated_output() -> (r: String)
    ensures
        r@ == initial_elevated_output_text(),
{
    let mut r = String::new();
    push_str(&mut r, "VERSION=1;TIMESTAMP=0;CPU_TEMP=NA;GPU_TEMP=NA\n");
    proof {
        reveal_strlit("VERSION=1;TIMESTAMP=0;CPU_TEMP=NA;GPU_TEMP=NA\n");
        assert(r@ =~= initial_elevated_output_text());
    }
    r
}

pub open spec fn initial_elevated_output_text() -> Seq<char> {
    seq![
        'V', 'E', 'R', 'S', 'I', 'O', 'N', '=', '1', ';', 'T', 'I', 'M', 'E', 'S', 'T', 'A', 'M',
        'P', '=', '0', ';', 'C', 'P', 'U', '_', 'T', 'E', 'M', 'P', '=', 'N', 'A', ';', 'G', 'P',
        'U', '_', 'T', 'E', 'M', 'P', '=', 'N', 'A', '\n',
    ]
}

// ---------------------------------------------------------------------
// The report of the elevated helper
// ---------------------------------------------------------------------
pub open spec fn timestamp_key() -> Seq<char> {
    seq!['T', 'I', 'M', 'E', 'S', 'T', 'A', 'M', 'P']
}

/// The report the elevated helper writes:
/// `VERSION=1;TIMESTAMP=<seconds>;CPU_TEMP=<t>;GPU_TEMP=<t>` and a line end.
pub open spec fn elevated_report_text(timestamp: u64, reading: TemperatureReading) -> Seq<char> {
    version_one_field() + seq![';'] + field(timestamp_key(), decimal(timestamp as nat)) + seq![';']
        + field(cpu_temp_key(), temperature_text(reading.cpu)) + seq![';'] + field(
        gpu_temp_key(),
        temperature_text(reading.gpu),
    ) + seq!['\n']
}

proof fn lemma_report_split(timestamp: u64, reading: TemperatureReading)
    ensures
        split(elevated_report_text(timestamp, reading), field_separator()) == seq![
            version_one_field(),
            field(timestamp_key(), decimal(timestamp as nat)),
            field(cpu_temp_key(), temperature_text(reading.cpu)),
            field(gpu_temp_key(), temperature_text(reading.gpu)) + seq!['\n'],
        ],
        trim(version_one_field()) == version_one_field(),
        trim(field(timestamp_key(), decimal(timestamp as nat))) == field(
            timestamp_key(),
            decimal(timestamp as nat),
        ),
        trim(field(cpu_temp_key(), temperature_text(reading.cpu))) == field(
            cpu_temp_key(),
            temperature_text(reading.cpu),
        ),
        trim(field(gpu_temp_key(), temperature_text(reading.gpu)) + seq!['\n']) == field(
            gpu_temp_key(),
            temperature_text(reading.gpu),
        ),
        starts_with(field(timestamp_key(), decimal(timestamp as nat)), timestamp_prefix()),
        field(timestamp_key(), decimal(timestamp as nat)).skip(10) == decimal(timestamp as nat),
        starts_with(field(cpu_temp_key(), temperature_text(reading.cpu)), cpu_temp_key().push('=')),
        field(cpu_temp_key(), temperature_text(reading.cpu)).skip(9) == temperature_text(
            reading.cpu,
        ),
        starts_with(field(gpu_temp_key(), temperature_text(reading.gpu)), gpu_temp_key().push('=')),
        field(gpu_temp_key(), temperature_text(reading.gpu)).skip(9) == temperature_text(
            reading.gpu,
        ),
{
    let sep = field_separator();
    let r0 = version_one_field();
    let r1 = field(timestamp_key(), decimal(timestamp as nat));
    let r2 = field(cpu_temp_key(), temperature_text(reading.cpu));
    let r3 = field(gpu_temp_key(), temperature_text(reading.gpu));
    lemma_text_facts(Some(0u8));
    lemma_decimal_digits(timestamp as nat);
    lemma_text_facts(reading.cpu);
    lemma_text_facts(reading.gpu);
    let d = decimal(timestamp as nat);
    assert(no_separator(d, sep)) by {
        assert forall|i: int| 0 <= i < d.len() implies #[trigger] d[i] != sep by {
            assert(all_digits(d));
        }
    }
    assert('0' <= d.last() <= '9');
    assert(no_separator(timestamp_key(), sep));
    assert(no_separator(cpu_temp_key(), sep));
    assert(no_separator(gpu_temp_key(), sep));
    assert(no_separator(r0, sep));
    lemma_field_facts(timestamp_key(), d);
    lemma_field_facts(cpu_temp_key(), temperature_text(reading.cpu));
    lemma_field_facts(gpu_temp_key(), temperature_text(reading.gpu));
    assert(timestamp_key().push('=') =~= timestamp_prefix());
    lemma_trim_noop(r0);
    assert(r3[0] == 'G');
    lemma_trim_newline(r3);
    let last = r3 + seq!['\n'];
    assert(no_separator(last, sep)) by {
        assert forall|i: int| 0 <= i < last.len() implies #[trigger] last[i] != sep by {
            if i < r3.len() {
                assert(last[i] == r3[i]);
            }
        }
    }
    let s2 = r2 + seq![sep] + last;
    let s1 = r1 + seq![sep] + s2;
    let s0 = r0 + seq![sep] + s1;
    assert(s0 =~= elevated_report_text(timestamp, reading));
    lemma_split_single(last, sep);
    lemma_split_first_field(r2, last, sep);
    lemma_split_first_field(r1, s2, sep);
    lemma_split_first_field(r0, s1, sep);
    assert(split(s0, sep) =~= seq![r0, r1, r2, last]);
}

proof fn lemma_report_fields(timestamp: u64, reading: TemperatureReading)
    ensures
        has_field(elevated_report_text(timestamp, reading), version_one_field()),
        timestamp_of(elevated_report_text(timestamp, reading)) == Some(timestamp),
{
    let line = elevated_report_text(timestamp, reading);
    let fields = split(line, field_separator());
    lemma_report_split(timestamp, reading);
    let r0 = version_one_field();
    let r1 = field(timestamp_key(), decimal(timestamp as nat));
    assert(trim(fields[0]) == r0);
    assert(eq_ignore_ascii_case(trim(fields[0]), version_one_field()));
    assert(any_field_is(fields, version_one_field()));
    assert(trim(fields[1]) == r1);
    lemma_not_prefix(r0, timestamp_prefix(), 0);
    lemma_first_stripped_at(fields, timestamp_prefix(), 1);
    let d = decimal(timestamp as nat);
    lemma_decimal_digits(timestamp as nat);
    assert(all_digits(d));
    assert('0' <= d[0] <= '9' && '0' <= d.last() <= '9');
    lemma_trim_noop(d);
    assert(unsigned_digits(d) == Some(timestamp as nat));
    assert(parse_u64(d) == Some(timestamp));
}

proof fn lemma_report_reading(timestamp: u64, reading: TemperatureReading)
    ensures
        reading_of(elevated_report_text(timestamp, reading)) == (TemperatureReading {
            cpu: clamped(reading.cpu),
            gpu: clamped(reading.gpu),
        }),
{
    let line = elevated_report_text(timestamp, reading);
    let fields = split(line, field_separator());
    lemma_report_split(timestamp, reading);
    lemma_text_facts(reading.cpu);
    lemma_text_facts(reading.gpu);
    let r0 = version_one_field();
    let r1 = field(timestamp_key(), decimal(timestamp as nat));
    let r2 = field(cpu_temp_key(), temperature_text(reading.cpu));
    let r3 = field(gpu_temp_key(), temperature_text(reading.gpu));
    assert(trim(fields[0]) == r0);
    assert(trim(fields[1]) == r1);
    assert(trim(fields[2]) == r2);
    assert(trim(fields[3]) == r3);
    let p = cpu_temp_key().push('=');
    lemma_not_prefix(r0, p, 0);
    lemma_not_prefix(r1, p, 0);
    lemma_first_stripped_at(fields, p, 2);
    let q = gpu_temp_key().push('=');
    lemma_not_prefix(r0, q, 0);
    lemma_not_prefix(r1, q, 0);
    lemma_not_prefix(r2, q, 0);
    lemma_first_stripped_at(fields, q, 3);
}

/// A report of the elevated helper is read back as written while its
/// timestamp lies within 35 seconds of now, and not at all after that.
pub proof fn lemma_elevated_report(timestamp: u64, reading: TemperatureReading, now: u64)
    ensures
        elevated_reading_of(elevated_report_text(timestamp, reading), now) == if abs_diff(
            now,
            timestamp,
        ) <= ELEVATED_TEMPERATURE_MAX_AGE_SECS {
            Some(TemperatureReading { cpu: clamped(reading.cpu), gpu: clamped(reading.gpu) })
        } else {
            None
        },
{
    lemma_report_fields(timestamp, reading);
    lemma_report_reading(timestamp, reading);
}

/// The file that the installer creates for the helper is a report of no
/// temperatures at time 0, so it is never taken for a fresh reading.
pub proof fn lemma_initial_output(now: u64)
    ensures
        initial_elevated_output_text() == elevated_report_text(0, no_reading()),
        now > ELEVATED_TEMPERATURE_MAX_AGE_SECS ==> elevated_reading_of(
            initial_elevated_output_text(),
            now,
        ) is None,
{
    assert(decimal(0) =~= seq!['0']) by {
        crate::text::lemma_digit_char(0);
    }
    assert(initial_elevated_output_text() =~= elevated_report_text(0, no_reading()));
    lemma_elevated_report(0, no_reading(), now);
}

/// The directory of the hardware monitor libraries: the one that
/// `LIBRE_HARDWARE_MONITOR_DIR` names when it is set and holds all of them,
/// else the bundled one.
pub fn resolve_libre_dir(bundled: &str, override_dir: Option<&str>, override_complete: bool) -> (r:
    String)
    ensures
        r@ == match override_dir {
            Some(dir) => if override_complete {
                dir@
            } else {
                bundled@
            },
            None => bundled@,
        },
{
    let chosen = match override_dir {
        Some(dir) => if override_complete {
            dir
        } else {
            bundled
        },
        None => bundled,
    };
    let mut r = String::new();
    push_str(&mut r, chosen);
    proof {
        assert(r@ =~= chosen@);
    }
    r
}

// ---------------------------------------------------------------------
// The sampling schedule of the temperature probe
// ---------------------------------------------------------------------
/// Time between `last` and `now`; zero when the clock went back.
pub open spec fn elapsed_nanos(last: u128, now: u128) -> nat {
    if now >= last {
        (now - last) as nat
    } else {
        0
    }
}

/// A probe run is due when none was made yet, or ten seconds have passed.
pub open spec fn sample_due(last: Option<u128>, now: u128) -> bool {
    match last {
        None => true,
        Some(t) => elapsed_nanos(t, now) >= TEMPERATURE_INTERVAL_NANOS,
    }
}

/// The log text for a reading taken from the elevated helper.
pub open spec fn elevated_message(reading: TemperatureReading) -> Seq<char> {
    "elevated CPU_TEMP="@ + temperature_text(reading.cpu) + ";GPU_TEMP="@ + temperature_text(
        reading.gpu,
    )
}

/// `format!("{:?}", code)` for an exit code.
pub open spec fn debug_exit_code(code: Option<i32>) -> Seq<char> {
    match code {
        Some(c) => "Some("@ + signed_decimal(c as int) + ")"@,
        None => "None"@,
    }
}

/// Appends `format!("{:?}", code)`.
pub fn push_debug_exit_code(m: &mut String, code: Option<i32>)
    ensures
        final(m)@ == old(m)@ + debug_exit_code(code),
{
    match code {
        Some(c) => {
            push_str(m, "Some(");
            push_signed_decimal(m, c as i64);
            push_str(m, ")");
            proof {
                assert(final(m)@ =~= old(m)@ + debug_exit_code(code));
            }
        },
        None => {
            push_str(m, "None");
        },
    }
}

/// How a run of the probe program ended, as the agent saw it.
pub enum ProbeRun {
    /// The program ran; `stdout` and `stderr` are its output read as UTF-8.
    Exited { success: bool, code: Option<i32>, stdout: String, stderr: String },
    /// The program could not be started.
    LaunchFailed { error: String },
}

/// The temperature probe: when it last ran and what it last read.
pub struct TemperatureProbe {
    /// The probe program.
    pub exe_path: String,
    /// The directory of the hardware monitor libraries it loads.
    pub libre_dir: String,
    /// When the probe last ran, in nanoseconds on the agent's clock.
    pub last_sample: Option<u128>,
    pub latest: TemperatureReading,
}

impl TemperatureProbe {
    pub fn new(exe_path: String, libre_dir: String) -> (p: Self)
        ensures
            p.exe_path == exe_path,
            p.libre_dir == libre_dir,
            p.last_sample is None,
            p.latest == no_reading(),
    {
        TemperatureProbe { exe_path, libre_dir, last_sample: None, latest: TemperatureReading::default() }
    }

    /// The last reading taken.
    pub fn latest(&self) -> (r: TemperatureReading)
        ensures
            r == self.latest,
    {
        self.latest
    }

    /// Starts a sample at `now_nanos` when one is due and records the time; a
    /// sample that is not due changes nothing.
    pub fn begin_sample(&mut self, now_nanos: u128) -> (due: bool)
        ensures
            due == sample_due(old(self).last_sample, now_nanos),
            final(self).last_sample == if due {
                Some(now_nanos)
            } else {
                old(self).last_sample
            },
            final(self).latest == old(self).latest,
            final(self).exe_path == old(self).exe_path,
            final(self).libre_dir == old(self).libre_dir,
    {
        if let Some(last) = self.last_sample {
            let elapsed = if now_nanos >= last {
                now_nanos - last
            } else {
                0
            };
            if elapsed < TEMPERATURE_INTERVAL_NANOS {
                return false;
            }
        }
        self.last_sample = Some(now_nanos);
        true
    }

    /// Goes on with a due sample from what the agent found: a fresh reading of the
    /// elevated helper, whether the probe program exists and whether its libraries
    /// are all present. Gives the log text when that settles the sample, and `None`
    /// when the probe program has to be run.
    pub fn sample_without_probe(
        &mut self,
        elevated: Option<TemperatureReading>,
        probe_exists: bool,
        libre_present: bool,
    ) -> (r: Option<String>)
        ensures
            final(self).last_sample == old(self).last_sample,
            final(self).exe_path == old(self).exe_path,
            final(self).libre_dir == old(self).libre_dir,
            match elevated {
                Some(reading) => final(self).latest == reading && (r matches Some(m) && m@
                    == elevated_message(reading)),
                None => if !probe_exists {
                    final(self).latest == no_reading() && (r matches Some(m) && m@
                        == "probe_missing"@)
                } else if !libre_present {
                    final(self).latest == no_reading() && (r matches Some(m) && m@
                        == "libre_missing path="@ + old(self).libre_dir@)
                } else {
                    final(self).latest == old(self).latest && r is None
                },
            },
    {
        if let Some(reading) = elevated {
            self.latest = reading;
            let mut m = String::new();
            push_str(&mut m, "elevated CPU_TEMP=");
            let t = serial_temperature(reading.cpu);
            push_str(&mut m, t.as_str());
            push_str(&mut m, ";GPU_TEMP=");
            let t = serial_temperature(reading.gpu);
            push_str(&mut m, t.as_str());
            proof {
                assert(m@ =~= elevated_message(reading));
            }
            return Some(m);
        }
        if !probe_exists {
            self.latest = TemperatureReading::default();
            let mut m = String::new();
            push_str(&mut m, "probe_missing");
            proof {
                assert(m@ =~= "probe_missing"@);
            }
            return Some(m);
        }
        if !libre_present {
            self.latest = TemperatureReading::default();
            let mut m = String::new();
            push_str(&mut m, "libre_missing path=");
            push_str(&mut m, self.libre_dir.as_str());
            proof {
                assert(m@ =~= "libre_missing path="@ + self.libre_dir@);
            }
            return Some(m);
        }
        None
    }

    /// Ends a sample with the result of running the probe program, and gives the log text.
    pub fn finish_sample(&mut self, run: ProbeRun) -> (m: String)
        ensures
            final(self).last_sample == old(self).last_sample,
            final(self).exe_path == old(self).exe_path,
            final(self).libre_dir == old(self).libre_dir,
            match run {
                ProbeRun::Exited { success, code, stdout, stderr } => if success {
                    if trim(stdout@).len() == 0 {
                        final(self).latest == no_reading() && m@ == "empty_probe_output"@
                    } else {
                        final(self).latest == reading_of(trim(stdout@)) && m@ == trim(stdout@)
                    }
                } else {
                    final(self).latest == no_reading() && m@ == "probe_failed code="@
                        + debug_exit_code(code) + " "@ + trim(stderr@)
                },
                ProbeRun::LaunchFailed { error } => final(self).latest == no_reading() && m@
                    == "probe_launch_failed "@ + error@,
            },
    {
        match run {
            ProbeRun::Exited { success, code, stdout, stderr } => {
                if success {
                    let out = trim_to_string(stdout.as_str());
                    if out.as_str().is_empty() {
                        self.latest = TemperatureReading::default();
                        let mut m = String::new();
                        push_str(&mut m, "empty_probe_output");
                        proof {
                            assert(m@ =~= "empty_probe_output"@);
                        }
                        m
                    } else {
                        let chars = to_chars(out.as_str());
                        self.latest = reading_in(&chars);
                        out
                    }
                } else {
                    self.latest = TemperatureReading::default();
                    let mut m = String::new();
                    push_str(&mut m, "probe_failed code=");
                    push_debug_exit_code(&mut m, code);
                    push_str(&mut m, " ");
                    let err = trim_to_string(stderr.as_str());
                    push_str(&mut m, err.as_str());
                    proof {
                        assert(m@ =~= "probe_failed code="@ + debug_exit_code(code) + " "@ + trim(
                            stderr@,
                        ));
                    }
                    m
                }
            },
            ProbeRun::LaunchFailed { error } => {
                self.latest = TemperatureReading::default();
                let mut m = String::new();
                push_str(&mut m, "probe_launch_failed ");
                push_str(&mut m, error.as_str());
                proof {
                    assert(m@ =~= "probe_launch_failed "@ + error@);
                }
                m
            },
        }
    }
}

/// A probe run is due exactly when none was made yet, or when the clock has
/// not gone back before the last run and at least ten seconds
/// (10_000_000_000 ns) have passed since it. So a run comes at the latest
/// with the first sample ten seconds after the previous one.
pub proof fn lemma_sample_due_after_interval(last: Option<u128>, now: u128)
    ensures
        sample_due(last, now) <==> (match last {
            None => true,
            Some(t) => t <= now && now - t >= 10_000_000_000,
        }),
{
}

/// A probe run never starts within ten seconds of the previous one, unless
/// the clock went back to before it.
pub proof fn lemma_sample_interval(last: u128, now: u128)
    requires
        last <= now < last + TEMPERATURE_INTERVAL_NANOS,
    ensures
        !sample_due(Some(last), now),
{
}

} // verus!
