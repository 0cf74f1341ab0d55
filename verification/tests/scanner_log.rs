use breakpoints::scanner::log::{render_line, ScanLog};
use breakpoints::scanner::record::{log_text, record};

fn px(v: i64) -> i64 {
    v * 1_000_000
}

fn sample() -> ScanLog {
    let mut log = ScanLog::new("site", "2026-01-02T03:04:05Z");
    log.tell_time(3);
    log.detector_start("css");
    log.read("a \"b\".css", 12);
    log.skip("big.css", "larger\nthan 2MB");
    log.note("nothing here");
    log.parse_failure("t.js", Some(4), "x", "yaml", "odd");
    log.parse_failure("t.js", None, "x", "yaml", "odd");
    log.discarded("t.js", "raw", "no width");
    log.candidate("https://s.test", "name", 90);
    log.candidate("https://t.test", "name", 100);
    log.merged(vec![px(640), px(767) + 980_000], 1);
    log.detector_end("css", 2, 9);
    log
}

#[test]
fn every_entry_is_an_object_on_a_line_of_its_own() {
    let log = sample();
    let text = log_text(&log);
    let lines: Vec<&str> = text.lines().collect();
    assert_eq!(lines.len(), log.entries().len());
    for (line, entry) in lines.iter().zip(log.entries()) {
        assert_eq!(*line, record(entry));
        // Read back and written again, it is the same text: the members are in
        // the order of their names.
        let value: serde_json::Value = serde_json::from_str(line).unwrap();
        assert_eq!(value.to_string(), *line);
    }
}

#[test]
fn an_entry_keeps_what_it_was_given() {
    let log = sample();
    let lines: Vec<String> = log.entries().iter().map(record).collect();
    assert_eq!(
        lines[0],
        r#"{"at":"2026-01-02T03:04:05Z","event":"scan.start","ms":0,"project":"site"}"#
    );
    assert_eq!(lines[1], r#"{"event":"detector.start","ms":3,"name":"css"}"#);
    assert_eq!(
        lines[2],
        r#"{"bytes":12,"detector":"css","event":"file.read","file":"a \"b\".css","ms":3}"#
    );
    assert_eq!(
        lines[5],
        r#"{"detector":"css","event":"parse.failure","file":"t.js","line":4,"ms":3,"reason":"odd","snippet":"x","step":"yaml"}"#
    );
    assert_eq!(
        lines[8],
        r#"{"confidence":0.9,"detector":"css","event":"devurl.candidate","ms":3,"source":"name","url":"https://s.test"}"#
    );
    assert!(lines[9].starts_with(r#"{"confidence":1.0,"#));
    assert_eq!(
        lines[10],
        r#"{"conflicts":1,"detector":"css","event":"merge.result","ms":3,"widths":[640.0,767.98]}"#
    );
    assert_eq!(
        lines[11],
        r#"{"breakpointsFound":2,"detector":"css","event":"detector.end","ms":3,"name":"css","tookMs":9}"#
    );
}

#[test]
fn a_very_small_width_is_written_as_json_numbers_are() {
    let mut log = ScanLog::new("site", "2026-01-02T03:04:05Z");
    log.merged(vec![1, 500_000, -px(2)], 0);
    let line = record(&log.entries()[1]);
    assert!(line.ends_with(r#""widths":[1e-6,0.5,-2.0]}"#), "{line}");
}

#[test]
fn the_sheet_shows_an_entry_in_words() {
    let log = sample();
    let lines: Vec<String> = log.entries().iter().map(render_line).collect();
    assert_eq!(lines[0], record(&log.entries()[0]), "no wording of its own");
    assert_eq!(lines[3], "big.css — skipped: larger\nthan 2MB");
    assert_eq!(lines[4], "nothing here");
    assert_eq!(lines[5], "t.js:4 — odd (yaml)\n    x");
    assert_eq!(lines[6], "t.js — odd (yaml)\n    x");
    assert_eq!(lines[7], "t.js — discarded raw: no width");
    assert_eq!(lines[8], "https://s.test from name (confidence 0.9)");
    assert_eq!(lines[9], "https://t.test from name (confidence 1)");
    assert_eq!(log.lines_for_file("t.js").len(), 3);
    assert_eq!(log.lines_for_file("big.css"), vec!["big.css — skipped: larger\nthan 2MB"]);
}
