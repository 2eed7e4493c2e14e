use esp32_hardware_monitor::serial_link::{
    connection_candidates, port_score, rank_ports, write_error_message, PortInfo, PortType,
    UsbPortInfo,
};

fn usb(name: &str, vid: u16, manufacturer: Option<&str>, product: Option<&str>) -> PortInfo {
    PortInfo {
        port_name: name.to_string(),
        port_type: PortType::UsbPort(UsbPortInfo {
            vid,
            pid: 1,
            serial_number: None,
            manufacturer: manufacturer.map(|s| s.to_string()),
            product: product.map(|s| s.to_string()),
        }),
    }
}

fn other(name: &str) -> PortInfo {
    PortInfo { port_name: name.to_string(), port_type: PortType::PciPort }
}

#[test]
fn espressif_ports_score_best() {
    assert_eq!(port_score(&usb("COM4", 0x303a, None, None)), 0);
    assert_eq!(port_score(&usb("COM5", 0x1234, Some("Espressif Systems"), None)), 0);
    assert_eq!(port_score(&usb("COM6", 0x1234, None, Some("ESP32-C3 board"))), 0);
}

#[test]
fn serial_bridges_score_one() {
    assert_eq!(port_score(&usb("COM3", 0x10c4, None, None)), 1);
    assert_eq!(port_score(&usb("COM3", 0x1a86, None, None)), 1);
    assert_eq!(port_score(&usb("COM3", 0x1111, Some("Silicon Labs"), Some("CP2102 USB to UART"))), 1);
    assert_eq!(port_score(&usb("COM3", 0x1111, Some("wch.cn"), Some("USB-SERIAL CH340"))), 1);
    assert_eq!(port_score(&usb("COM3", 0x1111, None, Some("USB JTAG/serial debug unit"))), 1);
    // The pattern may span the manufacturer and the product.
    assert_eq!(port_score(&usb("COM3", 0x1111, Some("USB"), Some("Serial"))), 1);
}

#[test]
fn other_ports_score_low() {
    assert_eq!(port_score(&usb("COM7", 0x2341, Some("Arduino"), Some("Uno"))), 2);
    assert_eq!(port_score(&other("COM1")), 3);
    let bt = PortInfo { port_name: "COM9".to_string(), port_type: PortType::BluetoothPort };
    assert_eq!(port_score(&bt), 3);
    let unknown = PortInfo { port_name: "COM10".to_string(), port_type: PortType::Unknown };
    assert_eq!(port_score(&unknown), 3);
}

fn names(ports: &[PortInfo]) -> Vec<String> {
    ports.iter().map(|p| p.port_name.clone()).collect()
}

#[test]
fn ranking_is_stable_by_score() {
    let ports = vec![
        other("COM1"),
        usb("COM2", 0x2341, None, None),
        usb("COM3", 0x10c4, None, None),
        usb("COM4", 0x303a, None, None),
        usb("COM5", 0x1a86, None, None),
        other("COM6"),
        usb("COM7", 0x303a, None, None),
    ];
    let ranked = rank_ports(ports);
    assert_eq!(names(&ranked), ["COM4", "COM7", "COM3", "COM5", "COM2", "COM1", "COM6"]);
}

#[test]
fn candidates_leave_out_ports_not_on_usb() {
    let ports = vec![
        other("COM1"),
        usb("COM2", 0x2341, None, None),
        usb("COM3", 0x303a, None, None),
    ];
    assert_eq!(names(&connection_candidates(ports)), ["COM3", "COM2"]);
    assert!(connection_candidates(vec![other("COM1")]).is_empty());
    assert!(rank_ports(Vec::new()).is_empty());
}

#[test]
fn write_error_names_the_port() {
    assert_eq!(write_error_message(Some("COM4".to_string()), "broken pipe"), "COM4: broken pipe");
    assert_eq!(write_error_message(None, "timed out"), "unknown: timed out");
}

#[test]
fn ranking_keeps_every_port() {
    let ports = vec![
        usb("A", 0x303a, None, None),
        other("B"),
        usb("C", 0x303a, None, None),
        usb("D", 0x10c4, None, None),
    ];
    let mut ranked = names(&rank_ports(ports));
    assert_eq!(ranked, ["A", "C", "D", "B"]);
    ranked.sort();
    assert_eq!(ranked, ["A", "B", "C", "D"]);
}
