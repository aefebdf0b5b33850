use aegis::audit::{tail_lines, AuditEvent, AuditLog};
use aegis::json::decimal_string;

/// The log text after appending `event` at `ts`: its JSON line and a newline.
fn append(log: &mut String, event: &AuditEvent, ts: u64) {
    log.push_str(&event.to_json_line(ts));
    log.push('\n');
}

#[test]
fn append_writes_jsonl_with_ts_and_event_tag() {
    let mut text = String::new();
    append(
        &mut text,
        &AuditEvent::Launch { profile: "p".into(), command: "agent.exe".into(), pid: 42 },
        1,
    );
    append(&mut text, &AuditEvent::Exit { pid: 42, code: 0 }, 2);

    let lines = tail_lines(&text, 10);
    assert_eq!(lines.len(), 2);

    let launch: serde_json::Value = serde_json::from_str(&lines[0]).unwrap();
    assert_eq!(launch["event"], "launch");
    assert_eq!(launch["pid"], 42);
    assert!(launch["ts"].is_u64());

    let exit: serde_json::Value = serde_json::from_str(&lines[1]).unwrap();
    assert_eq!(exit["event"], "exit");
    assert_eq!(exit["code"], 0);
}

#[test]
fn read_tail_truncates_to_last_n_lines() {
    let mut text = String::new();
    for i in 0..5 {
        append(&mut text, &AuditEvent::Exit { pid: i, code: i as u32 }, 0);
    }
    let tail = tail_lines(&text, 2);
    assert_eq!(tail.len(), 2);
    let last: serde_json::Value = serde_json::from_str(&tail[1]).unwrap();
    assert_eq!(last["pid"], 4);
}

#[test]
fn event_lines_match_serde_json_maps() {
    let events = vec![
        AuditEvent::Launch { profile: "aegis".into(), command: "D:\\aegis\\p.exe".into(), pid: 29020 },
        AuditEvent::Exit { pid: 31280, code: 0 },
        AuditEvent::Grant { path: "D:\\aegis\\p.exe".into(), access: "read_execute".into() },
        AuditEvent::ProxyStart { addr: "127.0.0.1:64571".into() },
        AuditEvent::ProxyStop,
    ];
    for e in &events {
        let line = e.to_json_line(1787469295);
        let v: serde_json::Value = serde_json::from_str(&line).unwrap();
        // A serde_json map prints its members in key order, compactly.
        assert_eq!(serde_json::to_string(&v).unwrap(), line);
        assert_eq!(v["ts"], 1787469295u64);
    }
    assert_eq!(
        events[2].to_json_line(1787469295),
        "{\"access\":\"read_execute\",\"event\":\"grant\",\"path\":\"D:\\\\aegis\\\\p.exe\",\"ts\":1787469295}"
    );
    assert_eq!(events[4].to_json_line(5), "{\"event\":\"proxy_stop\",\"ts\":5}");
    assert_eq!(
        events[3].to_json_line(9),
        "{\"addr\":\"127.0.0.1:64571\",\"event\":\"proxy_start\",\"ts\":9}"
    );
}

#[test]
fn tail_follows_str_lines() {
    assert!(tail_lines("", 5).is_empty());
    assert_eq!(tail_lines("a\r\nb\n\nc", 10), vec!["a", "b", "", "c"]);
    assert_eq!(tail_lines("a\nb\n", 10), vec!["a", "b"]);
    assert_eq!(tail_lines("a\rb\r", 10), vec!["a\rb\r"]);
    assert_eq!(tail_lines("1\n2\n3\n", 2), vec!["2", "3"]);
    assert!(tail_lines("1\n2\n", 0).is_empty());
    let text = "x\r\n\ny\nz\r";
    let expected: Vec<&str> = text.lines().collect();
    assert_eq!(tail_lines(text, 100), expected);
}

#[test]
fn audit_log_keeps_its_path() {
    let log = AuditLog::at("C:\\logs\\audit.log".to_string());
    assert_eq!(log.path(), "C:\\logs\\audit.log");
}

#[test]
fn strings_are_escaped_like_serde_json() {
    let grant = |path: &str| AuditEvent::Grant { path: path.into(), access: "read".into() }.to_json_line(0);
    assert_eq!(grant("plain"), "{\"access\":\"read\",\"event\":\"grant\",\"path\":\"plain\",\"ts\":0}");
    assert_eq!(
        grant("a\"b\\c\n\t\u{1}"),
        "{\"access\":\"read\",\"event\":\"grant\",\"path\":\"a\\\"b\\\\c\\n\\t\\u0001\",\"ts\":0}"
    );
    assert_eq!(grant("é/"), "{\"access\":\"read\",\"event\":\"grant\",\"path\":\"é/\",\"ts\":0}");
}

#[test]
fn decimal_rendering() {
    assert_eq!(decimal_string(0), "0");
    assert_eq!(decimal_string(7), "7");
    assert_eq!(decimal_string(10), "10");
    assert_eq!(decimal_string(u64::MAX), u64::MAX.to_string());
}

#[test]
fn audit_log_clone_keeps_path() {
    let log = AuditLog::at("C:\\logs\\audit.log".to_string());
    let copy = log.clone();
    assert_eq!(copy.path(), log.path());
    assert_eq!(copy.path(), "C:\\logs\\audit.log");
}
