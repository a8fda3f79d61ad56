use spicetify_guard::log::{decimal_text, log_entry};

#[test]
fn decimal_text_values() {
    assert_eq!(decimal_text(0), "0");
    assert_eq!(decimal_text(7), "7");
    assert_eq!(decimal_text(10), "10");
    assert_eq!(decimal_text(1_700_000_000), "1700000000");
    assert_eq!(decimal_text(u64::MAX), "18446744073709551615");
}

#[test]
fn log_entry_format() {
    assert_eq!(log_entry(1_700_000_000, "boot guard start"), "[1700000000] boot guard start\r\n");
    assert_eq!(log_entry(0, ""), "[0] \r\n");
    assert_eq!(log_entry(42, "not installed → skip"), "[42] not installed → skip\r\n");
}
