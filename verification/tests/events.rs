use mozdef_proxy::json::Json;
use mozdef_proxy::queue::decode_event;
use mozdef_proxy::queue::encode_event;
use mozdef_proxy::server::ClientEvent;
use mozdef_proxy::server::MozDefEvent;
use mozdef_proxy::server::Severity;
use mozdef_proxy::server::parse_client_event;
use mozdef_proxy::server::transform;
use mozdef_proxy::server::transform_at;

fn s(text: &str) -> String {
    text.to_string()
}

fn sample_client_event() -> ClientEvent {
    ClientEvent {
        category: s("authentication"),
        hostname: s("host1.internal"),
        severity: Severity::NOTICE,
        process: s("sshd"),
        summary: s("logon from 10.0.0.1"),
        tags: vec![s("ssh"), s("auth")],
        details: vec![(s("port"), Json::Num(s("22"))), (s("user"), Json::Str(s("jm")))],
    }
}

#[test]
fn severity_names_round_trip() {
    let all = [
        Severity::DEBUG,
        Severity::INFO,
        Severity::NOTICE,
        Severity::WARNING,
        Severity::ERROR,
        Severity::CRITICAL,
        Severity::ALERT,
        Severity::EMERGENCY,
    ];
    for sev in all {
        assert_eq!(Severity::from_name(&sev.name()), Some(sev));
    }
    assert_eq!(Severity::from_name(&s("TRACE")), None);
    assert_eq!(Severity::from_name(&s("notice")), None);
}

#[test]
fn transform_copies_fields_and_stamps_provenance() {
    let e = sample_client_event();
    let out = transform_at(
        sample_client_event(),
        s("2021-03-01T12:00:00+01:00"),
        s("2021-03-01T11:00:00+00:00"),
    );
    assert_eq!(out.category, e.category);
    assert_eq!(out.hostname, e.hostname);
    assert_eq!(out.severity, e.severity);
    assert_eq!(out.process, e.process);
    assert_eq!(out.summary, e.summary);
    assert_eq!(out.tags, e.tags);
    assert_eq!(out.details, e.details);
    assert_eq!(out.source, s("mozdef-proxy"));
    assert_eq!(out.timestamp, s("2021-03-01T12:00:00+01:00"));
    assert_eq!(out.utctimestamp, s("2021-03-01T11:00:00+00:00"));
}

#[test]
fn transform_is_deterministic_given_the_instant() {
    let a = transform_at(sample_client_event(), s("t1"), s("t2"));
    let b = transform_at(sample_client_event(), s("t1"), s("t2"));
    assert_eq!(a, b);
}

#[test]
fn encode_event_emits_the_schema_document() {
    let out = transform_at(
        sample_client_event(),
        s("2021-03-01T12:00:00+01:00"),
        s("2021-03-01T11:00:00+00:00"),
    );
    let expected = "{\"category\":\"authentication\",\"hostname\":\"host1.internal\",\"severity\":\"NOTICE\",\"process\":\"sshd\",\"summary\":\"logon from 10.0.0.1\",\"tags\":[\"ssh\",\"auth\"],\"details\":{\"port\":22,\"user\":\"jm\"},\"source\":\"mozdef-proxy\",\"timestamp\":\"2021-03-01T12:00:00+01:00\",\"utctimestamp\":\"2021-03-01T11:00:00+00:00\"}";
    assert_eq!(encode_event(out), expected);
}

#[test]
fn encoded_events_round_trip() {
    let out = transform_at(
        sample_client_event(),
        s("2021-03-01T12:00:00+01:00"),
        s("2021-03-01T11:00:00+00:00"),
    );
    let copy = transform_at(
        sample_client_event(),
        s("2021-03-01T12:00:00+01:00"),
        s("2021-03-01T11:00:00+00:00"),
    );
    let text = encode_event(out);
    let back: MozDefEvent = decode_event(&text).unwrap();
    assert_eq!(back, copy);
}

#[test]
fn parses_a_full_request_body() {
    let body = "{\"category\": \"authentication\", \"hostname\": \"host1.internal\", \"severity\": \"NOTICE\", \"process\": \"sshd\", \"summary\": \"logon from 10.0.0.1\", \"tags\": [\"ssh\", \"auth\"], \"details\": {\"port\": 22, \"user\": \"jm\"}}";
    let parsed = parse_client_event(body).unwrap();
    assert_eq!(parsed, sample_client_event());
}

#[test]
fn absent_tags_mean_empty() {
    let body = "{\"category\": \"c\", \"hostname\": \"h\", \"severity\": \"INFO\", \"process\": \"p\", \"summary\": \"s\", \"details\": {}}";
    let parsed = parse_client_event(body).unwrap();
    assert_eq!(parsed.tags, Vec::<String>::new());
    assert_eq!(parsed.details, vec![]);
}

#[test]
fn unknown_members_are_ignored() {
    let body = "{\"category\": \"c\", \"hostname\": \"h\", \"severity\": \"INFO\", \"process\": \"p\", \"summary\": \"s\", \"details\": {}, \"extra\": [1, 2, 3]}";
    assert!(parse_client_event(body).is_some());
}

#[test]
fn missing_required_fields_are_rejected() {
    // hostname omitted
    let body = "{\"category\": \"c\", \"severity\": \"INFO\", \"process\": \"p\", \"summary\": \"s\", \"details\": {}}";
    assert_eq!(parse_client_event(body), None);
    // details omitted
    let body2 = "{\"category\": \"c\", \"hostname\": \"h\", \"severity\": \"INFO\", \"process\": \"p\", \"summary\": \"s\"}";
    assert_eq!(parse_client_event(body2), None);
}

#[test]
fn wrongly_typed_fields_are_rejected() {
    let body = "{\"category\": 7, \"hostname\": \"h\", \"severity\": \"INFO\", \"process\": \"p\", \"summary\": \"s\", \"details\": {}}";
    assert_eq!(parse_client_event(body), None);
    let body2 = "{\"category\": \"c\", \"hostname\": \"h\", \"severity\": \"INFO\", \"process\": \"p\", \"summary\": \"s\", \"tags\": [\"a\", 1], \"details\": {}}";
    assert_eq!(parse_client_event(body2), None);
    let body3 = "{\"category\": \"c\", \"hostname\": \"h\", \"severity\": \"INFO\", \"process\": \"p\", \"summary\": \"s\", \"details\": []}";
    assert_eq!(parse_client_event(body3), None);
}

#[test]
fn unrecognized_severity_is_rejected() {
    let body = "{\"category\": \"c\", \"hostname\": \"h\", \"severity\": \"TRACE\", \"process\": \"p\", \"summary\": \"s\", \"details\": {}}";
    assert_eq!(parse_client_event(body), None);
}

#[test]
fn transform_stamps_the_current_instant_in_both_zones() {
    let out = transform(sample_client_event());
    assert_eq!(out.category, "authentication");
    assert_eq!(out.source, "mozdef-proxy");
    let local = chrono::DateTime::parse_from_rfc3339(&out.timestamp).unwrap();
    let utc = chrono::DateTime::parse_from_rfc3339(&out.utctimestamp).unwrap();
    // both stamps were taken back to back, so they name the same instant
    // up to the moment between the two clock reads
    let skew = local.timestamp() - utc.timestamp();
    assert!(skew.abs() <= 2, "local and utc stamps disagree by {} s", skew);
    let now = chrono::Utc::now().timestamp();
    assert!((now - utc.timestamp()).abs() <= 60);
}
