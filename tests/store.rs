use cube_tui::stats::History;
use cube_tui::store::{parse_history, parse_line, saved_lines, time_line, LoadError};

fn b(s: &str) -> Vec<u8> {
    s.as_bytes().to_vec()
}

#[test]
fn parses_seconds_as_milliseconds() {
    assert_eq!(parse_line(&b("12.34")), Some(12340));
    assert_eq!(parse_line(&b("12")), Some(12000));
    assert_eq!(parse_line(&b("0.5")), Some(500));
    assert_eq!(parse_line(&b("7.0019")), Some(7001));
    assert_eq!(parse_line(&b("12.340")), Some(12340));
}

#[test]
fn rejects_malformed_lines() {
    for bad in ["-1.0", "inf", "NaN", "1.", ".5", "1.2.3", "12a", "1 2", "", "99999999999999999999"] {
        assert_eq!(parse_line(&b(bad)), None, "{}", bad);
    }
}

#[test]
fn largest_time_fits() {
    assert_eq!(parse_line(&b("18446744073709551.615")), Some(u64::MAX));
    assert_eq!(parse_line(&b("18446744073709551.616")), None);
}

#[test]
fn writes_three_decimals() {
    assert_eq!(time_line(12340), b("12.340"));
    assert_eq!(time_line(5), b("0.005"));
    assert_eq!(time_line(100000), b("100.000"));
}

#[test]
fn parse_history_skips_blank_lines() {
    let lines = vec![b("1.5"), b(""), b("2.25")];
    assert_eq!(parse_history(&lines), Ok(vec![1500, 2250]));
}

#[test]
fn one_malformed_record_loads_nothing() {
    let mut lines: Vec<Vec<u8>> = (1..=9).map(|i| b(&format!("{}.5", i))).collect();
    lines.insert(4, b("-3.0"));
    let mut h = History::new();
    h.insert(1000);
    assert_eq!(h.load(&lines), Err(LoadError::MalformedRecord));
    assert_eq!(h.len(), 0);
    assert_eq!(h.stats().pb_single, None);
}

#[test]
fn save_then_load_round_trip() {
    let mut h = History::new();
    for t in [12340u64, 9870, 15000, 11111, 10001, 7] {
        h.insert(t);
    }
    let lines = h.save();
    assert_eq!(lines, saved_lines(&vec![12340, 9870, 15000, 11111, 10001, 7]));
    let mut back = History::new();
    assert_eq!(back.load(&lines), Ok(()));
    assert_eq!(back.records(), h.records());
    assert_eq!(back.stats(), h.stats());
}
