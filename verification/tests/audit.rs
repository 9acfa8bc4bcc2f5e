//! The audit log: what is read back of what was written.

use serde_json::Value;
use termaxa::audit::{
    keep_last, now, stamp, AuditEntry, AuditLog, LOG_DIR, LOG_FILE, MAX_SECONDS,
};

fn entry(command: &str) -> AuditEntry {
    let (ts_ms, ts) = now();
    AuditEntry {
        ts_ms,
        ts,
        source: "test".into(),
        command: command.into(),
        decision: "allow".into(),
        matched_rule: None,
        reason: "because".into(),
        signals: Vec::new(),
        escalated: false,
        session: None,
        backup: None,
        preview: None,
        intent: None,
        approved: None,
        exit_code: None,
        cwd: "/work".into(),
    }
}

fn text(v: &Option<String>) -> Value {
    match v {
        Some(t) => Value::String(t.clone()),
        None => Value::Null,
    }
}

/// An entry as one line of JSON.
fn line(e: &AuditEntry) -> String {
    let mut m = serde_json::Map::new();
    m.insert("ts_ms".into(), Value::from(e.ts_ms as u64));
    m.insert("ts".into(), Value::from(e.ts.as_str()));
    m.insert("source".into(), Value::from(e.source.as_str()));
    m.insert("command".into(), Value::from(e.command.as_str()));
    m.insert("decision".into(), Value::from(e.decision.as_str()));
    m.insert("matched_rule".into(), text(&e.matched_rule));
    m.insert("reason".into(), Value::from(e.reason.as_str()));
    m.insert("signals".into(), Value::from(e.signals.clone()));
    m.insert("escalated".into(), Value::from(e.escalated));
    m.insert("cwd".into(), Value::from(e.cwd.as_str()));
    Value::Object(m).to_string()
}

/// An entry out of one line of JSON.
fn parse(line: &str) -> Option<AuditEntry> {
    let v: Value = serde_json::from_str(line).ok()?;
    let string = |key: &str| v.get(key).and_then(|t| t.as_str()).map(|t| t.to_string());
    Some(AuditEntry {
        ts_ms: v.get("ts_ms")?.as_u64()? as u128,
        ts: string("ts")?,
        source: string("source")?,
        command: string("command")?,
        decision: string("decision")?,
        matched_rule: string("matched_rule"),
        reason: string("reason")?,
        signals: Vec::new(),
        escalated: v.get("escalated")?.as_bool()?,
        session: string("session"),
        backup: string("backup"),
        preview: string("preview"),
        intent: string("intent"),
        approved: None,
        exit_code: None,
        cwd: string("cwd")?,
    })
}

fn commands(entries: &[AuditEntry]) -> Vec<&str> {
    entries.iter().map(|e| e.command.as_str()).collect()
}

#[test]
fn a_new_log_is_empty_and_has_its_place() {
    let log = AuditLog::new();
    assert_eq!(log.text, "");
    assert_eq!(LOG_DIR, "logs");
    assert_eq!(LOG_FILE, "audit.jsonl");
}

#[test]
fn read_last_on_a_log_that_was_never_written_is_empty() {
    let log = AuditLog::new();
    let entries = log.read_last(parse, 10);
    assert!(entries.is_empty());
}

#[test]
fn read_last_returns_exactly_the_tail_in_order() {
    let mut log = AuditLog::new();
    for command in ["one", "two", "three", "four", "five"] {
        log.append(&line(&entry(command)));
    }

    let tail = log.read_last(parse, 2);
    // Exactly two, oldest first: reports read the tail as a timeline.
    assert_eq!(commands(&tail), ["four", "five"]);
    assert!(log.read_last(parse, 0).is_empty());
}

#[test]
fn read_last_asking_for_more_than_exists_returns_everything() {
    let mut log = AuditLog::new();
    for command in ["one", "two", "three"] {
        log.append(&line(&entry(command)));
    }

    // The boundary: asking for exactly the number held, and for more.
    let all = log.read_last(parse, 3);
    assert_eq!(commands(&all), ["one", "two", "three"]);
    let more = log.read_last(parse, 99);
    assert_eq!(more.len(), 3, "asking for more cannot invent entries");
}

#[test]
fn read_last_skips_a_line_it_cannot_parse() {
    let mut log = AuditLog::new();
    log.append(&line(&entry("first")));
    // A truncated write (a killed process mid-append) must not make the
    // whole history unreadable.
    log.append("{\"ts_ms\": 1, oh no");
    log.append(&line(&entry("second")));

    let entries = log.read_last(parse, 10);
    assert_eq!(commands(&entries), ["first", "second"]);
    // What cannot be read does not count toward the number asked for.
    assert_eq!(commands(&log.read_last(parse, 2)), ["first", "second"]);
}

#[test]
fn what_was_written_is_read_back() {
    let mut e = entry("echo \"a\nb\" 'ü'");
    e.matched_rule = Some("rule".into());
    e.escalated = true;
    let mut log = AuditLog::new();
    log.append(&line(&e));
    let back = log.read_last(parse, 1);
    assert_eq!(back.len(), 1);
    assert_eq!(back[0].ts_ms, e.ts_ms);
    assert_eq!(back[0].ts, e.ts);
    assert_eq!(back[0].command, e.command);
    assert_eq!(back[0].matched_rule, e.matched_rule);
    assert!(back[0].escalated);
}

#[test]
fn a_log_is_its_records_each_on_a_line() {
    let mut log = AuditLog::new();
    log.append("a");
    log.append("");
    log.append("b");
    assert_eq!(log.text, "a\n\nb\n");
    assert_eq!(log.records(), ["a", "", "b"]);
}

#[test]
fn lines_are_read_as_str_lines_reads_them() {
    for raw in [
        "", "\n", "a", "a\n", "a\nb", "a\r\nb\r\n", "a\r", "a\r\r\n", "\r\n", "a\n\nb", "\n\na",
        "é\nü\r\n", "a\rb\n",
    ] {
        let log = AuditLog {
            text: raw.to_string(),
        };
        let want: Vec<String> = raw.lines().map(|l| l.to_string()).collect();
        assert_eq!(log.records(), want, "{raw:?}");
    }
}

#[test]
fn keep_last_passes_over_what_did_not_read() {
    let kept = keep_last(
        vec![
            Some(entry("one")),
            None,
            Some(entry("two")),
            None,
            Some(entry("three")),
        ],
        2,
    );
    assert_eq!(commands(&kept), ["two", "three"]);
    assert!(keep_last(vec![None, None], 5).is_empty());
}

#[test]
fn now_reports_the_same_instant_in_both_forms() {
    let (ms, ts) = now();

    // A stubbed clock (0, or 1) would sit in 1970.
    assert!(
        ms > 1_735_689_600_000,
        "epoch milliseconds should be recent, got {}",
        ms
    );
    let parsed = chrono::DateTime::parse_from_rfc3339(&ts)
        .unwrap_or_else(|e| panic!("`{}` must be RFC3339 UTC: {}", ts, e));
    let skew = (ms as i64 - parsed.timestamp_millis()).abs();
    assert!(
        skew < 2_000,
        "the two halves must describe one instant, {} ms apart",
        skew
    );
}

#[test]
fn stamps_exactly() {
    assert_eq!(
        stamp(Some(1_735_689_600_123)),
        (1_735_689_600_123, "2025-01-01T00:00:00Z".to_string())
    );
    // A clock that stands before the epoch counts as the epoch.
    assert_eq!(stamp(None), (0, "1970-01-01T00:00:00Z".to_string()));
    assert_eq!(stamp(Some(86_399_999)).1, "1970-01-01T23:59:59Z");
    let last = chrono::DateTime::<chrono::Utc>::MAX_UTC;
    assert_eq!(MAX_SECONDS, last.timestamp());
    // No time is too late to be written.
    assert_eq!(
        stamp(Some(u128::MAX)),
        (u128::MAX, last.format("%Y-%m-%dT%H:%M:%SZ").to_string())
    );
}

#[test]
fn a_read_after_an_append_gives_one_entry_more() {
    let mut log = AuditLog {
        text: format!("{}\nnot json\n\n{}\n", line(&entry("one")), line(&entry("two"))),
    };
    for (n, command) in ["three", "four", "five"].into_iter().enumerate() {
        let before = log.read_last(parse, n);
        log.append(&line(&entry(command)));
        let after = log.read_last(parse, n + 1);
        let mut want = commands(&before);
        want.push(command);
        assert_eq!(commands(&after), want);
    }
}
