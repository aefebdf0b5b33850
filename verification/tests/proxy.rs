use aegis::proxy::{
    allowed, host_of, net_audit_line, parse_connect_target, parse_proxy_args, Admission, DialOutcome, Proxy,
    ProxyReply, ReadStep, RequestHead,
};

#[test]
fn host_extraction_splits_port() {
    assert_eq!(host_of("api.anthropic.com:443"), "api.anthropic.com");
    assert_eq!(host_of("api.anthropic.com"), "api.anthropic.com");
}

#[test]
fn allowlist_matches_exact_and_subdomain() {
    let list = vec!["anthropic.com".to_string(), "github.com".to_string()];
    assert!(allowed("anthropic.com", &list));
    assert!(allowed("api.anthropic.com", &list));
    assert!(allowed("github.com", &list));
    assert!(!allowed("evil.com", &list));
    assert!(!allowed("notanthropic.com", &list));
}

#[test]
fn audit_line_escapes_untrusted_host() {
    // A host is attacker-controlled (from the CONNECT line); it must survive
    // a JSON round-trip without breaking the line structure.
    let host = "evil\"host\n.com\\";
    let ts = 1787469295;
    let line = net_audit_line(host, false, ts);
    assert_eq!(line.lines().count(), 1);
    let obj: serde_json::Value = serde_json::from_str(&line).unwrap();
    assert_eq!(obj["event"], "net");
    assert_eq!(obj["host"], host);
    assert_eq!(obj["allowed"], false);
    assert!(obj["ts"].is_u64());
}

#[test]
fn net_line_has_sorted_keys_and_exact_text() {
    assert_eq!(
        net_audit_line("api.anthropic.com", true, 1787469295),
        "{\"allowed\":true,\"event\":\"net\",\"host\":\"api.anthropic.com\",\"ts\":1787469295}"
    );
    assert_eq!(
        net_audit_line("a\"b", false, 0),
        "{\"allowed\":false,\"event\":\"net\",\"host\":\"a\\\"b\",\"ts\":0}"
    );
}

#[test]
fn host_of_uses_last_colon_and_keeps_empty_host() {
    assert_eq!(host_of("[::1]:443"), "[::1]");
    assert_eq!(host_of(":443"), "");
    assert_eq!(host_of(""), "");
    assert_eq!(host_of("a:b:c"), "a:b");
}

#[test]
fn allowlist_edge_cases() {
    let empty: Vec<String> = Vec::new();
    assert!(!allowed("anthropic.com", &empty));
    let list = vec!["anthropic.com".to_string()];
    assert!(allowed("a.b.anthropic.com", &list));
    assert!(!allowed(".anthropic.co", &list));
    assert!(!allowed("anthropic.com.evil.com", &list));
    assert!(!allowed("ANTHROPIC.COM", &list));
    assert!(allowed(".anthropic.com", &list));
    // Adding entries never revokes.
    let more = vec!["anthropic.com".to_string(), "x.org".to_string()];
    assert!(allowed("api.anthropic.com", &more));
}

#[test]
fn proxy_screens_targets() {
    let p = Proxy::with_audit(vec!["anthropic.com".to_string()], true);
    match p.screen("evil.com:443", 7) {
        Admission::Refuse { host, audit } => {
            assert_eq!(host, "evil.com");
            assert_eq!(
                audit.unwrap(),
                "{\"allowed\":false,\"event\":\"net\",\"host\":\"evil.com\",\"ts\":7}"
            );
        }
        Admission::Dial { .. } => panic!("evil.com must be refused"),
    }
    match p.screen("api.anthropic.com:443", 7) {
        Admission::Dial { host } => assert_eq!(host, "api.anthropic.com"),
        Admission::Refuse { .. } => panic!("api.anthropic.com must be dialed"),
    }
    let quiet = Proxy::new(vec!["anthropic.com".to_string()]);
    assert!(!quiet.audit_enabled());
    match quiet.screen("evil.com:443", 7) {
        Admission::Refuse { audit, .. } => assert!(audit.is_none()),
        Admission::Dial { .. } => panic!("evil.com must be refused"),
    }
}

#[test]
fn proxy_dial_outcomes() {
    let p = Proxy::with_audit(vec!["127.0.0.1".to_string()], true);
    match p.dialed("127.0.0.1", false, 1) {
        DialOutcome::BadGateway { audit } => assert_eq!(
            audit.unwrap(),
            "{\"allowed\":true,\"event\":\"net\",\"host\":\"127.0.0.1\",\"ts\":1}"
        ),
        DialOutcome::Tunnel { .. } => panic!("failed dial must answer 502"),
    }
    match p.dialed("127.0.0.1", true, 1) {
        DialOutcome::Tunnel { audit } => assert_eq!(
            audit.unwrap(),
            "{\"allowed\":true,\"event\":\"net\",\"host\":\"127.0.0.1\",\"ts\":1}"
        ),
        DialOutcome::BadGateway { .. } => panic!("connected dial must tunnel"),
    }
    let quiet = Proxy::new(vec!["127.0.0.1".to_string()]);
    match quiet.dialed("127.0.0.1", true, 1) {
        DialOutcome::Tunnel { audit } => assert!(audit.is_none()),
        DialOutcome::BadGateway { .. } => panic!("connected dial must tunnel"),
    }
    match quiet.dialed("127.0.0.1", false, 1) {
        DialOutcome::BadGateway { audit } => assert!(audit.is_none()),
        DialOutcome::Tunnel { .. } => panic!("failed dial must answer 502"),
    }
}

#[test]
fn proxy_reply_texts() {
    assert_eq!(ProxyReply::Forbidden.text(), "HTTP/1.1 403 Forbidden\r\n\r\n");
    assert_eq!(ProxyReply::BadGateway.text(), "HTTP/1.1 502 Bad Gateway\r\n\r\n");
    assert_eq!(
        ProxyReply::Established.text(),
        "HTTP/1.1 200 Connection Established\r\n\r\n"
    );
}

#[test]
fn request_head_reads_until_blank_line() {
    let mut head = RequestHead::new();
    assert_eq!(head.absorb(b"CONNECT api.anthropic.com:443 HTTP/1.1\r\n"), ReadStep::NeedMore);
    assert_eq!(head.absorb(b"Host: api.anthropic.com:443\r\n\r\n"), ReadStep::Complete);
    assert_eq!(head.target().unwrap(), "api.anthropic.com:443");
}

#[test]
fn request_head_end_of_stream_and_oversize() {
    let mut head = RequestHead::new();
    assert_eq!(head.absorb(b"connect example.org:80"), ReadStep::NeedMore);
    assert_eq!(head.absorb(b""), ReadStep::Complete);
    assert_eq!(head.target().unwrap(), "example.org:80");

    let mut big = RequestHead::new();
    let chunk = vec![b'a'; 4096];
    let mut last = ReadStep::NeedMore;
    for _ in 0..17 {
        last = big.absorb(&chunk);
    }
    assert_eq!(last, ReadStep::TooLarge);
}

#[test]
fn request_head_rejects_other_methods() {
    let mut head = RequestHead::new();
    head.absorb(b"GET / HTTP/1.1\r\n\r\n");
    assert!(head.target().is_none());
    let mut short = RequestHead::new();
    short.absorb(b"CONNECT\r\n\r\n");
    assert!(short.target().is_none());
    let mut spaced = RequestHead::new();
    spaced.absorb(b"  CoNnEcT \t host:1  HTTP/1.1\r\n\r\n");
    assert_eq!(spaced.target().unwrap(), "host:1");
    let mut invalid = RequestHead::new();
    invalid.absorb(b"CONNECT h\xffst:1 HTTP/1.1\r\n\r\n");
    assert_eq!(invalid.target().unwrap(), "h\u{fffd}st:1");
}

fn args(v: &[&str]) -> Vec<String> {
    v.iter().map(|s| s.to_string()).collect()
}

#[test]
fn proxy_args_parse() {
    let a = parse_proxy_args(&args(&["--allow", " a.com, ,b.com ,", "--audit"])).ok().unwrap();
    assert_eq!(a.listen, "127.0.0.1:8080");
    assert_eq!(a.allowlist, vec!["a.com".to_string(), "b.com".to_string()]);
    assert!(a.audit);
    let b = parse_proxy_args(&args(&["--listen", "127.0.0.1:9", "--allow", "x.org", "--allow", "y.org"]))
        .ok()
        .unwrap();
    assert_eq!(b.listen, "127.0.0.1:9");
    assert_eq!(b.allowlist, vec!["x.org".to_string(), "y.org".to_string()]);
    assert!(!b.audit);
}

#[test]
fn proxy_args_errors() {
    assert_eq!(parse_proxy_args(&args(&["--listen"])).err().unwrap(), "--listen needs a value");
    assert_eq!(parse_proxy_args(&args(&["--allow"])).err().unwrap(), "--allow needs a value");
    assert_eq!(parse_proxy_args(&args(&["--bogus"])).err().unwrap(), "unknown argument: --bogus");
    assert_eq!(
        parse_proxy_args(&args(&[])).err().unwrap(),
        "no domains allowed (use --allow domain1,domain2)"
    );
    assert_eq!(
        parse_proxy_args(&args(&["--allow", " , "])).err().unwrap(),
        "no domains allowed (use --allow domain1,domain2)"
    );
}

#[test]
fn connect_target_from_head_text() {
    assert_eq!(
        parse_connect_target("CONNECT api.anthropic.com:443 HTTP/1.1\r\nHost: x\r\n\r\n"),
        Some("api.anthropic.com:443".to_string())
    );
    assert_eq!(parse_connect_target("connect h:1 HTTP/1.1"), Some("h:1".to_string()));
    assert_eq!(parse_connect_target("GET / HTTP/1.1\r\n\r\n"), None);
    assert_eq!(parse_connect_target("CONNECT"), None);
    assert_eq!(parse_connect_target(""), None);
}
