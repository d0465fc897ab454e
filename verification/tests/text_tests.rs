use atlas_ground::text::{push_decimal, push_hex2, sanitize_log_label, to_ascii_uppercase};

#[test]
fn decimal_numbers() {
    for n in [0u64, 7, 10, 99, 100, 65535, u64::MAX] {
        let mut s = String::from("x=");
        push_decimal(&mut s, n);
        assert_eq!(s, format!("x={n}"));
    }
}

#[test]
fn hex_bytes_are_two_upper_case_digits() {
    for b in [0u8, 0x0A, 0x5F, 0xFF] {
        let mut s = String::new();
        push_hex2(&mut s, b);
        assert_eq!(s, format!("{b:02X}"));
    }
}

#[test]
fn log_labels_keep_only_ascii_letters_and_digits() {
    assert_eq!(sanitize_log_label("/dev/ttyACM0"), "_dev_ttyACM0");
    assert_eq!(sanitize_log_label("COM7"), "COM7");
    assert_eq!(sanitize_log_label("a b-c.d"), "a_b_c_d");
    assert_eq!(sanitize_log_label("é1"), "_1");
}

#[test]
fn empty_log_label_becomes_session() {
    assert_eq!(sanitize_log_label(""), "session");
}

#[test]
fn upper_case_touches_only_ascii_letters() {
    assert_eq!(to_ascii_uppercase("set_mode 1é"), "SET_MODE 1é");
    assert_eq!(to_ascii_uppercase(""), "");
}
