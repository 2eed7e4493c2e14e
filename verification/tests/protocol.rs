use esp32_hardware_monitor::agent::serial_line;
use esp32_hardware_monitor::metrics::Metrics;
use esp32_hardware_monitor::temperature::{
    parse_temperature_field, parse_temperature_reading, serial_temperature, TemperatureReading,
};

#[test]
fn serial_line_matches_readme_example() {
    let metrics = Metrics { cpu: 35, gpu: 42, ram: 68 };
    let temps = TemperatureReading { cpu: Some(56), gpu: Some(61) };
    assert_eq!(
        serial_line(&metrics, &temps),
        "CPU=35;GPU=42;RAM=68;CPU_TEMP=56;GPU_TEMP=61\n"
    );
}

#[test]
fn serial_line_sends_na_without_temperatures() {
    let metrics = Metrics { cpu: 0, gpu: 100, ram: 7 };
    let temps = TemperatureReading { cpu: None, gpu: None };
    assert_eq!(
        serial_line(&metrics, &temps),
        "CPU=0;GPU=100;RAM=7;CPU_TEMP=NA;GPU_TEMP=NA\n"
    );
}

#[test]
fn serial_temperature_texts() {
    assert_eq!(serial_temperature(None), "NA");
    assert_eq!(serial_temperature(Some(0)), "0");
    assert_eq!(serial_temperature(Some(9)), "9");
    assert_eq!(serial_temperature(Some(56)), "56");
    assert_eq!(serial_temperature(Some(255)), "255");
}

#[test]
fn serial_line_temperatures_read_back() {
    for cpu in [None, Some(0u8), Some(45), Some(199), Some(200), Some(255)] {
        for gpu in [None, Some(1u8), Some(99), Some(230)] {
            let metrics = Metrics { cpu: 12, gpu: 3, ram: 100 };
            let temps = TemperatureReading { cpu, gpu };
            let line = serial_line(&metrics, &temps);
            let back = parse_temperature_reading(&line);
            assert_eq!(back.cpu, cpu.map(|v| v.min(199)));
            assert_eq!(back.gpu, gpu.map(|v| v.min(199)));
        }
    }
}

#[test]
fn serial_line_fields_read_back() {
    let metrics = Metrics { cpu: 99, gpu: 1, ram: 50 };
    let temps = TemperatureReading { cpu: Some(70), gpu: None };
    let line = serial_line(&metrics, &temps);
    assert_eq!(parse_temperature_field(&line, "CPU"), Some(99));
    assert_eq!(parse_temperature_field(&line, "GPU"), Some(1));
    assert_eq!(parse_temperature_field(&line, "RAM"), Some(50));
    assert_eq!(parse_temperature_field(&line, "CPU_TEMP"), Some(70));
    assert_eq!(parse_temperature_field(&line, "GPU_TEMP"), None);
}
