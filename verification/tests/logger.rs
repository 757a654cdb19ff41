//! Log records and lines.

use match_risk_engine::core_types::text::push_decimal;
use match_risk_engine::logger::{
    dropped_line, Level, LogRecord, Logger, SliceWriter, MESSAGE_CAPACITY,
};

fn log(logger: &Logger, level: Level, message: &str, out: &mut String) {
    let mut w = SliceWriter::new();
    w.write_str(message);
    if let Some(rec) = logger.record(level, 1, &w) {
        out.push_str(&rec.line());
    }
}

#[test]
fn basic_log_roundtrip() {
    let mut out = String::new();
    let logger = Logger::new(Level::Trace);

    log(
        &logger,
        Level::Info,
        &format!("order accepted id={} px={}", 42, 100_50),
        &mut out,
    );
    log(
        &logger,
        Level::Warn,
        &format!("risk near limit acct={}", 7),
        &mut out,
    );

    assert!(out.contains("order accepted id=42 px=10050"));
    assert!(out.contains("risk near limit acct=7"));
    assert_eq!(
        out,
        "1 INFO order accepted id=42 px=10050\n1 WARN risk near limit acct=7\n"
    );
}

#[test]
fn truncates_long_messages() {
    let mut out = String::new();
    let logger = Logger::new(Level::Trace);

    let long = "x".repeat(1000);
    log(&logger, Level::Info, &long, &mut out);

    // line should be capped at buffer size (256), not 1000
    let line = out.lines().next().unwrap();
    assert!(line.len() < 300);
    assert_eq!(line.len(), "1 INFO ".len() + MESSAGE_CAPACITY);
}

#[test]
fn min_level_filters() {
    let mut out = String::new();
    let logger = Logger::new(Level::Warn);

    log(&logger, Level::Info, "should be filtered", &mut out);
    log(&logger, Level::Error, "should appear", &mut out);

    assert!(!out.contains("should be filtered"));
    assert!(out.contains("should appear"));
}

#[test]
fn levels_are_ordered() {
    let all = [
        Level::Trace,
        Level::Debug,
        Level::Info,
        Level::Warn,
        Level::Error,
    ];
    for (i, min) in all.iter().enumerate() {
        for (j, level) in all.iter().enumerate() {
            assert_eq!(Logger::new(*min).enabled(*level), j >= i);
            assert_eq!(level >= min, level.rank() >= min.rank());
        }
    }
    assert_eq!(Level::Debug.label(), "DEBUG");
}

#[test]
fn pieces_are_cut_like_the_whole() {
    let mut whole = SliceWriter::new();
    whole.write_str(&"ab".repeat(200));
    let mut pieces = SliceWriter::new();
    for _ in 0..200 {
        pieces.write_str("a");
        pieces.write_str("b");
    }
    assert_eq!(whole.pos, 256);
    assert_eq!(whole.pos, pieces.pos);
    assert_eq!(whole.buf, pieces.buf);
}

#[test]
fn a_cut_character_is_no_text() {
    let mut w = SliceWriter::new();
    w.write_str(&"x".repeat(255));
    w.write_str("\u{e9}");
    let rec = Logger::new(Level::Trace)
        .record(Level::Error, 7, &w)
        .unwrap();
    assert_eq!(rec.as_str(), "<invalid utf8>");
    assert_eq!(rec.line(), "7 ERROR <invalid utf8>\n");
    let whole = LogRecord { len: 255, ..rec };
    assert_eq!(whole.as_str(), "x".repeat(255));
}

#[test]
fn decimal_numbers() {
    for n in [0u64, 7, 10, 105, 1_000_000, u64::MAX] {
        let mut s = String::new();
        push_decimal(&mut s, n);
        assert_eq!(s, n.to_string());
    }
}

#[test]
fn dropped_records_are_told_of() {
    assert_eq!(dropped_line(0), None);
    assert_eq!(dropped_line(1).unwrap(), "<1 records dropped>\n");
    assert_eq!(
        dropped_line(u64::MAX).unwrap(),
        "<18446744073709551615 records dropped>\n"
    );
}
