use plc_poll::catalog::parse_catalog;

fn strings(v: &[&str]) -> Vec<String> {
    v.iter().map(|s| s.to_string()).collect()
}

#[test]
fn parses_two_reads_one_write() {
    let text = "{\"read_symbols\": [\"A\", \"B\"], \"write_symbols\": [\"C\"]}";
    let c = parse_catalog(text).expect("well-formed catalog");
    assert_eq!(c.read_symbols, strings(&["A", "B"]));
    assert_eq!(c.write_symbols, strings(&["C"]));
}

#[test]
fn parses_canonical_text_without_whitespace() {
    let text = "{\"read_symbols\":[\"A\",\"B\"],\"write_symbols\":[\"C\"]}";
    let c = parse_catalog(text).expect("well-formed catalog");
    assert_eq!(c.read_symbols, strings(&["A", "B"]));
    assert_eq!(c.write_symbols, strings(&["C"]));
}

#[test]
fn parses_members_in_either_order() {
    let text = "{\"write_symbols\": [\"C\"], \"read_symbols\": [\"A\", \"B\"]}";
    let c = parse_catalog(text).expect("well-formed catalog");
    assert_eq!(c.read_symbols, strings(&["A", "B"]));
    assert_eq!(c.write_symbols, strings(&["C"]));
}

#[test]
fn parses_with_surrounding_whitespace() {
    let text = "  \r\n{\n\t\"read_symbols\" : [ \"MAIN.counter\" , \"MAIN.flag\" ] ,\n\t\"write_symbols\" : [ \"MAIN.setpoint\" ]\n}\n";
    let c = parse_catalog(text).expect("well-formed catalog");
    assert_eq!(c.read_symbols, strings(&["MAIN.counter", "MAIN.flag"]));
    assert_eq!(c.write_symbols, strings(&["MAIN.setpoint"]));
}

#[test]
fn parses_empty_lists() {
    let text = "{\"read_symbols\": [], \"write_symbols\": []}";
    let c = parse_catalog(text).expect("well-formed catalog");
    assert!(c.read_symbols.is_empty());
    assert!(c.write_symbols.is_empty());
}

#[test]
fn keeps_duplicate_names() {
    let text = "{\"read_symbols\": [\"A\", \"A\"], \"write_symbols\": []}";
    let c = parse_catalog(text).expect("well-formed catalog");
    assert_eq!(c.read_symbols, strings(&["A", "A"]));
}

#[test]
fn rejects_missing_write_symbols() {
    let text = "{\"read_symbols\": [\"A\", \"B\"]}";
    assert!(parse_catalog(text).is_none());
}

#[test]
fn rejects_missing_read_symbols() {
    let text = "{\"write_symbols\": [\"C\"]}";
    assert!(parse_catalog(text).is_none());
}

#[test]
fn rejects_duplicate_keys() {
    let text = "{\"read_symbols\": [\"A\"], \"read_symbols\": [\"B\"]}";
    assert!(parse_catalog(text).is_none());
}

#[test]
fn rejects_unknown_key() {
    let text = "{\"read_symbols\": [\"A\"], \"other\": [\"B\"]}";
    assert!(parse_catalog(text).is_none());
}

#[test]
fn rejects_empty_text() {
    assert!(parse_catalog("").is_none());
    assert!(parse_catalog("   \n ").is_none());
}

#[test]
fn rejects_unterminated_list() {
    let text = "{\"read_symbols\": [\"A\", \"write_symbols\": [\"C\"]}";
    assert!(parse_catalog(text).is_none());
}

#[test]
fn rejects_unterminated_string() {
    let text = "{\"read_symbols\": [\"A], \"write_symbols\": [\"C\"]}";
    assert!(parse_catalog(text).is_none());
}

#[test]
fn rejects_trailing_text() {
    let text = "{\"read_symbols\": [], \"write_symbols\": []} x";
    assert!(parse_catalog(text).is_none());
}

#[test]
fn rejects_missing_comma_between_members() {
    let text = "{\"read_symbols\": [] \"write_symbols\": []}";
    assert!(parse_catalog(text).is_none());
}

#[test]
fn rejects_backslash_in_name() {
    let text = "{\"read_symbols\": [\"A\\\\B\"], \"write_symbols\": []}";
    assert!(parse_catalog(text).is_none());
}

#[test]
fn rejects_non_ascii_name() {
    let text = "{\"read_symbols\": [\"Grad\u{00e9}\"], \"write_symbols\": []}";
    assert!(parse_catalog(text).is_none());
}
