use esp32_hardware_monitor::text::{decimal_string, trim_to_string};
use esp32_hardware_monitor::win_util::wide_null;

#[test]
fn decimal_text_of_numbers() {
    assert_eq!(decimal_string(0), "0");
    assert_eq!(decimal_string(10), "10");
    assert_eq!(decimal_string(1234567890), "1234567890");
    assert_eq!(decimal_string(u64::MAX), u64::MAX.to_string());
}

#[test]
fn trimming_matches_str_trim() {
    for s in ["", "  ", " a b ", "\u{2003}x\u{85}", "\t\r\nval\n", "x", "\u{200b}y"] {
        assert_eq!(trim_to_string(s), s.trim());
    }
}

#[test]
fn wide_strings_end_in_nul() {
    assert_eq!(wide_null(""), [0u16]);
    assert_eq!(wide_null("runas"), [0x72, 0x75, 0x6e, 0x61, 0x73, 0]);
    let s = "温度 😀";
    let expected: Vec<u16> = s.encode_utf16().chain(std::iter::once(0)).collect();
    assert_eq!(wide_null(s), expected);
    assert_eq!(wide_null("😀"), [0xD83D, 0xDE00, 0]);
}
