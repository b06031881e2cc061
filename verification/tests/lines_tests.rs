use plc_poll::genval::generate_write_value;
use plc_poll::lines::{
    ams_addr_string, decimal_string, format_read_line, format_sleep_line, format_write_line,
};

#[test]
fn decimal_rendering() {
    assert_eq!(decimal_string(0), "0");
    assert_eq!(decimal_string(7), "7");
    assert_eq!(decimal_string(10), "10");
    assert_eq!(decimal_string(100), "100");
    assert_eq!(decimal_string(851), "851");
    assert_eq!(decimal_string(4294967295), "4294967295");
    assert_eq!(decimal_string(u64::MAX), "18446744073709551615");
}

#[test]
fn read_line_text() {
    assert_eq!(format_read_line("A", 5), "A value is 5");
    assert_eq!(format_read_line("MAIN.counter", 1234), "MAIN.counter value is 1234");
}

#[test]
fn write_line_text() {
    assert_eq!(format_write_line(42, "C"), "Wrote 42 to C");
    assert_eq!(format_write_line(0, "MAIN.setpoint"), "Wrote 0 to MAIN.setpoint");
}

#[test]
fn sleep_line_text() {
    assert_eq!(format_sleep_line(1000), "Sleeping 1000 ms");
    assert_eq!(format_sleep_line(0), "Sleeping 0 ms");
}

#[test]
fn ams_addr_appends_fixed_port() {
    assert_eq!(ams_addr_string("5.32.116.5.1.1"), "5.32.116.5.1.1:851");
}

#[test]
fn generated_values_stay_in_range() {
    let mut seen = [false; 101];
    for _ in 0..2000 {
        let v = generate_write_value();
        assert!(v <= 100);
        seen[v as usize] = true;
    }
    // A draw over the whole range; 2000 samples from one constant would
    // light a single entry.
    let distinct = seen.iter().filter(|b| **b).count();
    assert!(distinct > 1);
}
