use esp32_hardware_monitor::temperature::{
    elevated_file_is_fresh, elevated_reading, initial_elevated_output, parse_temperature_field,
    parse_temperature_reading, parse_timestamp, resolve_libre_dir, ProbeRun, TemperatureProbe,
    TemperatureReading,
};

#[test]
fn temperature_field_plain_values() {
    let line = "CPU_TEMP=56;GPU_TEMP=61";
    assert_eq!(parse_temperature_field(line, "CPU_TEMP"), Some(56));
    assert_eq!(parse_temperature_field(line, "GPU_TEMP"), Some(61));
    assert_eq!(parse_temperature_field(line, "RAM"), None);
}

#[test]
fn temperature_field_na_in_any_case() {
    assert_eq!(parse_temperature_field("CPU_TEMP=NA", "CPU_TEMP"), None);
    assert_eq!(parse_temperature_field("CPU_TEMP=na", "CPU_TEMP"), None);
    assert_eq!(parse_temperature_field("CPU_TEMP= nA ", "CPU_TEMP"), None);
    assert_eq!(parse_temperature_field("CPU_TEMP=", "CPU_TEMP"), None);
    assert_eq!(parse_temperature_field("CPU_TEMP=   ", "CPU_TEMP"), None);
}

#[test]
fn temperature_field_clamps_to_display_range() {
    assert_eq!(parse_temperature_field("CPU_TEMP=-5", "CPU_TEMP"), Some(0));
    assert_eq!(parse_temperature_field("CPU_TEMP=250", "CPU_TEMP"), Some(199));
    assert_eq!(parse_temperature_field("CPU_TEMP=199", "CPU_TEMP"), Some(199));
    assert_eq!(parse_temperature_field("CPU_TEMP=+42", "CPU_TEMP"), Some(42));
    assert_eq!(parse_temperature_field("CPU_TEMP=0042", "CPU_TEMP"), Some(42));
    assert_eq!(parse_temperature_field("CPU_TEMP=2147483647", "CPU_TEMP"), Some(199));
    assert_eq!(parse_temperature_field("CPU_TEMP=-2147483648", "CPU_TEMP"), Some(0));
}

#[test]
fn temperature_field_rejects_what_i32_rejects() {
    assert_eq!(parse_temperature_field("CPU_TEMP=2147483648", "CPU_TEMP"), None);
    assert_eq!(parse_temperature_field("CPU_TEMP=-2147483649", "CPU_TEMP"), None);
    assert_eq!(parse_temperature_field("CPU_TEMP=4x", "CPU_TEMP"), None);
    assert_eq!(parse_temperature_field("CPU_TEMP=4.5", "CPU_TEMP"), None);
    assert_eq!(parse_temperature_field("CPU_TEMP=+", "CPU_TEMP"), None);
    assert_eq!(parse_temperature_field("CPU_TEMP=-", "CPU_TEMP"), None);
    assert_eq!(parse_temperature_field("CPU_TEMP=+-3", "CPU_TEMP"), None);
    assert_eq!(parse_temperature_field("CPU_TEMP=4 5", "CPU_TEMP"), None);
}

#[test]
fn temperature_field_first_match_decides() {
    // The first field with the key settles the answer, even when it holds no number.
    assert_eq!(parse_temperature_field("CPU_TEMP=NA;CPU_TEMP=50", "CPU_TEMP"), None);
    assert_eq!(parse_temperature_field("CPU_TEMP=50;CPU_TEMP=60", "CPU_TEMP"), Some(50));
    // Fields are trimmed before the key is looked for; the key is case-sensitive.
    assert_eq!(parse_temperature_field("  CPU_TEMP=33  ;x", "CPU_TEMP"), Some(33));
    assert_eq!(parse_temperature_field("cpu_temp=33", "CPU_TEMP"), None);
    // A longer key with the same start is no match.
    assert_eq!(parse_temperature_field("CPU_TEMPX=33;CPU_TEMP=34", "CPU_TEMP"), Some(34));
    // Whitespace after the `=` is trimmed, and Unicode spaces count.
    assert_eq!(parse_temperature_field("CPU_TEMP=\u{3000}77\u{a0}", "CPU_TEMP"), Some(77));
}

#[test]
fn temperature_reading_of_probe_output() {
    let r = parse_temperature_reading("CPU_TEMP=56;GPU_TEMP=NA");
    assert_eq!(r, TemperatureReading { cpu: Some(56), gpu: None });
    let r = parse_temperature_reading("");
    assert_eq!(r, TemperatureReading { cpu: None, gpu: None });
}

#[test]
fn timestamp_field() {
    assert_eq!(parse_timestamp("VERSION=1;TIMESTAMP=1700000000;CPU_TEMP=1"), Some(1700000000));
    assert_eq!(parse_timestamp("TIMESTAMP= 12 "), Some(12));
    assert_eq!(parse_timestamp("TIMESTAMP=+12"), Some(12));
    assert_eq!(parse_timestamp("TIMESTAMP=-12"), None);
    assert_eq!(parse_timestamp("TIMESTAMP=18446744073709551615"), Some(u64::MAX));
    assert_eq!(parse_timestamp("TIMESTAMP=18446744073709551616"), None);
    assert_eq!(parse_timestamp("VERSION=1"), None);
    assert_eq!(parse_timestamp("TIMESTAMP=x;TIMESTAMP=5"), None);
}

#[test]
fn elevated_report_fresh_and_stale() {
    let report = "VERSION=1;TIMESTAMP=1000;CPU_TEMP=48;GPU_TEMP=61\n";
    let reading = TemperatureReading { cpu: Some(48), gpu: Some(61) };
    assert_eq!(elevated_reading(report, Some(1000)), Some(reading));
    assert_eq!(elevated_reading(report, Some(1035)), Some(reading));
    assert_eq!(elevated_reading(report, Some(965)), Some(reading));
    assert_eq!(elevated_reading(report, Some(1036)), None);
    assert_eq!(elevated_reading(report, Some(964)), None);
    assert_eq!(elevated_reading(report, None), None);
}

#[test]
fn elevated_report_needs_version_one() {
    assert_eq!(elevated_reading("TIMESTAMP=10;CPU_TEMP=1", Some(10)), None);
    assert_eq!(elevated_reading("VERSION=2;TIMESTAMP=10;CPU_TEMP=1", Some(10)), None);
    assert_eq!(
        elevated_reading("version=1;TIMESTAMP=10;CPU_TEMP=1", Some(10)),
        Some(TemperatureReading { cpu: Some(1), gpu: None })
    );
    assert_eq!(elevated_reading("VERSION=1;CPU_TEMP=1", Some(10)), None);
}

#[test]
fn initial_output_is_never_fresh() {
    let text = initial_elevated_output();
    assert_eq!(text, "VERSION=1;TIMESTAMP=0;CPU_TEMP=NA;GPU_TEMP=NA\n");
    assert_eq!(elevated_reading(&text, Some(1_700_000_000)), None);
    assert_eq!(elevated_reading(&text, Some(35)), Some(TemperatureReading::default()));
}

#[test]
fn elevated_file_freshness() {
    assert!(elevated_file_is_fresh(Some(0)));
    assert!(elevated_file_is_fresh(Some(35_000_000_000)));
    assert!(!elevated_file_is_fresh(Some(35_000_000_001)));
    assert!(!elevated_file_is_fresh(None));
}

fn probe() -> TemperatureProbe {
    TemperatureProbe::new("C:\\probe.exe".to_string(), "C:\\libre".to_string())
}

#[test]
fn probe_runs_at_most_every_ten_seconds() {
    let mut p = probe();
    assert!(p.begin_sample(5));
    assert!(!p.begin_sample(5 + 9_999_999_999));
    assert!(p.begin_sample(5 + 10_000_000_000));
    // A clock that went back counts as no time passed.
    assert!(!p.begin_sample(1));
    assert_eq!(p.last_sample, Some(10_000_000_005));
}

#[test]
fn probe_prefers_elevated_reading() {
    let mut p = probe();
    let reading = TemperatureReading { cpu: Some(40), gpu: None };
    let msg = p.sample_without_probe(Some(reading), false, false);
    assert_eq!(msg.as_deref(), Some("elevated CPU_TEMP=40;GPU_TEMP=NA"));
    assert_eq!(p.latest(), reading);
}

#[test]
fn probe_missing_pieces_clear_reading() {
    let mut p = probe();
    p.latest = TemperatureReading { cpu: Some(1), gpu: Some(2) };
    assert_eq!(p.sample_without_probe(None, false, true).as_deref(), Some("probe_missing"));
    assert_eq!(p.latest(), TemperatureReading::default());
    p.latest = TemperatureReading { cpu: Some(1), gpu: Some(2) };
    assert_eq!(
        p.sample_without_probe(None, true, false).as_deref(),
        Some("libre_missing path=C:\\libre")
    );
    assert_eq!(p.latest(), TemperatureReading::default());
    p.latest = TemperatureReading { cpu: Some(1), gpu: Some(2) };
    assert_eq!(p.sample_without_probe(None, true, true), None);
    assert_eq!(p.latest(), TemperatureReading { cpu: Some(1), gpu: Some(2) });
}

#[test]
fn probe_run_outcomes() {
    let mut p = probe();
    let m = p.finish_sample(ProbeRun::Exited {
        success: true,
        code: Some(0),
        stdout: "  CPU_TEMP=50;GPU_TEMP=60\r\n".to_string(),
        stderr: String::new(),
    });
    assert_eq!(m, "CPU_TEMP=50;GPU_TEMP=60");
    assert_eq!(p.latest(), TemperatureReading { cpu: Some(50), gpu: Some(60) });

    let m = p.finish_sample(ProbeRun::Exited {
        success: true,
        code: Some(0),
        stdout: " \n".to_string(),
        stderr: String::new(),
    });
    assert_eq!(m, "empty_probe_output");
    assert_eq!(p.latest(), TemperatureReading::default());

    let m = p.finish_sample(ProbeRun::Exited {
        success: false,
        code: Some(-3),
        stdout: String::new(),
        stderr: " access denied\n".to_string(),
    });
    assert_eq!(m, "probe_failed code=Some(-3) access denied");

    let m = p.finish_sample(ProbeRun::Exited {
        success: false,
        code: None,
        stdout: String::new(),
        stderr: String::new(),
    });
    assert_eq!(m, "probe_failed code=None ");

    p.latest = TemperatureReading { cpu: Some(9), gpu: None };
    let m = p.finish_sample(ProbeRun::LaunchFailed { error: "not found".to_string() });
    assert_eq!(m, "probe_launch_failed not found");
    assert_eq!(p.latest(), TemperatureReading::default());
}

#[test]
fn libre_dir_override_only_when_complete() {
    assert_eq!(resolve_libre_dir("C:\\bundled", None, true), "C:\\bundled");
    assert_eq!(resolve_libre_dir("C:\\bundled", Some("D:\\mine"), true), "D:\\mine");
    assert_eq!(resolve_libre_dir("C:\\bundled", Some("D:\\mine"), false), "C:\\bundled");
}
