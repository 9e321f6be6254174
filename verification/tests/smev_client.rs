use rfe::rsocket::{RSocketClient, RSocketFrame};
use rfe::ids::Inn;
use rfe::smev::{
    poll_start, poll_step, AuthProvider, PollAction, PollConfig, PollState, QueueTicket,
    SmevClient, SmevError, UnavailableReason,
};
use rfe::smev_services::{
    esia_profile_outcome, esia_profile_payload, extract_ticket, fns_check_outcome, fns_check_payload, fns_field_of, fns_finish,
    fns_record, xml_escape, FnsCheckResponse, FnsField, FnsFields, MISSING_INCOME_CONFIRMED,
    MISSING_IS_VALID,
};

#[test]
fn unavailable_reason_mapping() {
    assert_eq!(
        UnavailableReason::from_http_status(403, false),
        UnavailableReason::ProviderAccessDenied
    );
    assert_eq!(
        UnavailableReason::from_http_status(429, false),
        UnavailableReason::QuotaOrRateLimit
    );
    assert_eq!(
        UnavailableReason::from_http_status(503, false),
        UnavailableReason::ServiceDegraded
    );
    assert_eq!(
        UnavailableReason::from_http_status(503, true),
        UnavailableReason::QuotaOrRateLimit
    );
}

#[test]
fn extract_ticket_ok() {
    let t = extract_ticket("<Response><TicketId>abc</TicketId></Response>").unwrap();
    assert_eq!(t.0, "abc");
}

#[test]
fn extract_ticket_missing_start() {
    let err = extract_ticket("<Response></Response>").unwrap_err();
    let msg = err.message();
    assert!(msg.contains("missing <TicketId>"));
}

#[test]
fn extract_ticket_other_errors() {
    let err = extract_ticket("<TicketId>abc").unwrap_err();
    assert_eq!(err.message(), "Payload/response error: missing </TicketId> in SMEV response");
    let err = extract_ticket("</TicketId><TicketId>").unwrap_err();
    assert_eq!(err.message(), "Payload/response error: malformed <TicketId> bounds");
    assert_eq!(extract_ticket("<TicketId></TicketId>").unwrap_err().message(), "Payload/response error: malformed <TicketId> bounds");
}

#[test]
fn fns_check_response_parse_xml_ok() {
    let xml =
        "<Response><IsValid>true</IsValid><IncomeConfirmed>true</IncomeConfirmed></Response>";
    let parsed = FnsCheckResponse::parse_xml(xml).unwrap();
    assert!(parsed.is_valid);
    assert!(parsed.income_confirmed);
}

#[test]
fn fns_check_response_parse_xml_negative() {
    let xml =
        "<Response><IsValid>false</IsValid><IncomeConfirmed>false</IncomeConfirmed></Response>";
    let parsed = FnsCheckResponse::parse_xml(xml).unwrap();
    assert!(!parsed.is_valid);
    assert!(!parsed.income_confirmed);
}

#[test]
fn fns_check_response_parse_xml_strict_ok() {
    let xml =
        "<Response><IsValid>true</IsValid><IncomeConfirmed>false</IncomeConfirmed></Response>";
    let parsed = FnsCheckResponse::parse_xml_strict(xml).unwrap();
    assert!(parsed.is_valid);
    assert!(!parsed.income_confirmed);
}

#[test]
fn fns_check_response_parse_xml_strict_missing_field() {
    let xml = "<Response><IsValid>true</IsValid></Response>";
    let err = FnsCheckResponse::parse_xml_strict(xml).unwrap_err();
    let msg = err.message();
    assert!(msg.contains("missing <IncomeConfirmed>"));
}

#[test]
fn strict_parse_trims_and_reports_reader_errors() {
    let xml = "<R>\n  <IsValid>true</IsValid>\n  <IncomeConfirmed> true </IncomeConfirmed>\n</R>";
    let parsed = FnsCheckResponse::parse_xml_strict(xml).unwrap();
    assert!(parsed.is_valid);
    // the element text is compared as it stands
    assert!(!parsed.income_confirmed);
    match FnsCheckResponse::parse_xml_strict("<R><IsValid>true</Wrong></R>") {
        Err(e @ SmevError::Xml(_)) => {
            let m = e.message();
            assert!(m.starts_with("XML parse error: "));
            assert!(m.len() > "XML parse error: ".len());
        }
        other => panic!("expected an XML error, got {:?}", other.is_ok()),
    }
    let err = FnsCheckResponse::parse_xml_strict("<R></R>").unwrap_err();
    assert_eq!(err.message(), "Payload/response error: missing <IsValid> in XML");
}

#[test]
fn strict_parse_steps() {
    assert_eq!(fns_field_of(b"IsValid"), Some(FnsField::IsValid));
    assert_eq!(fns_field_of(b"IncomeConfirmed"), Some(FnsField::IncomeConfirmed));
    assert_eq!(fns_field_of(b"isvalid"), None);
    let none = FnsFields { is_valid: None, income_confirmed: None };
    let f = fns_record(none, FnsField::IsValid, &"true".to_string());
    assert_eq!(f, FnsFields { is_valid: Some(true), income_confirmed: None });
    let f = fns_record(f, FnsField::IncomeConfirmed, &"TRUE".to_string());
    assert_eq!(f, FnsFields { is_valid: Some(true), income_confirmed: Some(false) });
    let r = fns_finish(f).unwrap();
    assert!(r.is_valid && !r.income_confirmed);
    match fns_finish(none) {
        Err(SmevError::Payload(m)) => assert_eq!(m, MISSING_IS_VALID),
        _ => panic!("expected a payload error"),
    }
    match fns_finish(FnsFields { is_valid: Some(false), income_confirmed: None }) {
        Err(SmevError::Payload(m)) => assert_eq!(m, MISSING_INCOME_CONFIRMED),
        _ => panic!("expected a payload error"),
    }
}

#[test]
fn test_xml_injection_in_inn_is_escaped() {
    let escaped = xml_escape("7700<bad>&\"'");
    assert_eq!(escaped, "7700&lt;bad&gt;&amp;&quot;&apos;");
}

#[test]
fn request_payloads_escape_their_fields() {
    let inn = Inn::new_unchecked("77<0");
    let p = fns_check_payload(&inn, "01.01.1990");
    assert!(p.contains("<Inn>77&lt;0</Inn>"));
    assert!(p.contains("<Dob>01.01.1990</Dob>"));
    assert!(p.contains("<Recipient>FNS</Recipient>"));
    let e = esia_profile_payload("1&2");
    assert!(e.contains("<Oid>1&amp;2</Oid>"));
    assert!(e.contains("<Scope>fullname birthdate passport</Scope>"));
}

#[test]
fn test_builder_requires_explicit_base_url() {
    let result = SmevClient::builder().build();
    let err = match result {
        Err(e) => e,
        Ok(_) => panic!("expected builder error when base_url missing"),
    };

    match err {
        SmevError::Auth(msg) => assert!(msg.contains("base_url required")),
        other => panic!("expected Auth error, got {other:?}"),
    }
}

#[test]
fn builder_with_base_url_builds_urls() {
    let client = SmevClient::builder()
        .base_url("http://smev.local")
        .auth_provider(AuthProvider::Certificate { path: "/tmp/c.pem".to_string() })
        .build()
        .unwrap();
    assert_eq!(client.get_url("/x"), "http://smev.local/x");
    assert_eq!(
        client.queue_url(&QueueTicket("t1".to_string())),
        "http://smev.local/api/v1/queue/t1"
    );
    assert_eq!(client.fns().check_url(), "http://smev.local/api/v1/fns/check");
    assert_eq!(client.esia().profile_url(), "http://smev.local/api/v1/esia/profile");
}

#[test]
fn poll_config_defaults() {
    let c = PollConfig::default();
    assert_eq!(c.max_attempts, 10);
    assert_eq!(c.initial_delay_ms, 100);
    assert_eq!(c.max_delay_ms, 10_000);
    assert_eq!(c.timeout_total_secs, 30);
}

#[test]
fn poll_steps() {
    let cfg = PollConfig { max_attempts: 3, initial_delay_ms: 100, max_delay_ms: 150, timeout_total_secs: 30 };
    let t = QueueTicket("tk".to_string());
    let s0 = poll_start(&cfg);
    assert_eq!(s0, PollState { attempts: 0, delay_ms: 100 });
    match poll_step(&cfg, s0, &t, 200, "OK", false, Some("<Data/>".to_string()), 0) {
        PollAction::Ready(b) => assert_eq!(b, "<Data/>"),
        _ => panic!("expected ready"),
    }
    let s1 = match poll_step(&cfg, s0, &t, 200, "OK", false, Some("<Status>PROCESSING</Status>".to_string()), 0) {
        PollAction::Wait { delay_ms, next } => {
            assert_eq!(delay_ms, 100);
            assert_eq!(next, PollState { attempts: 1, delay_ms: 150 });
            next
        }
        _ => panic!("expected wait"),
    };
    let s2 = match poll_step(&cfg, s1, &t, 500, "Internal Server Error", false, None, 1) {
        PollAction::Wait { delay_ms, next } => {
            assert_eq!(delay_ms, 150);
            next
        }
        _ => panic!("expected wait"),
    };
    match poll_step(&cfg, s2, &t, 500, "Internal Server Error", false, None, 2) {
        PollAction::Fail(SmevError::Timeout) => {}
        _ => panic!("expected timeout"),
    }
    match poll_step(&cfg, s0, &t, 500, "x", false, None, 30) {
        PollAction::Fail(SmevError::Timeout) => {}
        _ => panic!("expected timeout"),
    }
    match poll_step(&cfg, s0, &t, 503, "Service Unavailable", false, None, 0) {
        PollAction::Fail(SmevError::Unavailable { reason }) => {
            assert_eq!(reason, "ServiceDegraded (Service Unavailable)")
        }
        _ => panic!("expected unavailable"),
    }
    match poll_step(&cfg, s0, &t, 503, "Service Unavailable", true, None, 0) {
        PollAction::Fail(e) => assert_eq!(
            e.message(),
            "SMEV service unavailable: QuotaOrRateLimit (Service Unavailable)"
        ),
        _ => panic!("expected unavailable"),
    }
    match poll_step(&cfg, s0, &t, 404, "Not Found", false, None, 0) {
        PollAction::Fail(SmevError::Payload(m)) => {
            assert_eq!(m, "queue ticket not found or expired: tk")
        }
        _ => panic!("expected payload error"),
    }
}

#[test]
fn error_messages() {
    assert_eq!(SmevError::Timeout.message(), "Timeout while polling SMEV queue");
    assert_eq!(SmevError::Auth("a".to_string()).message(), "Authentication/configuration error: a");
}

#[test]
fn rsocket_frames_encode() {
    let f = RSocketFrame::RequestResponse { id: 0x01020304, payload: vec![9, 8] };
    assert_eq!(f.encode(), vec![0x01, 1, 2, 3, 4, 9, 8]);
    assert_eq!(RSocketFrame::Stream { id: 1, payload: vec![] }.encode(), vec![0x02, 0, 0, 0, 1]);
    assert_eq!(RSocketFrame::Cancel { id: 258 }.encode(), vec![0x09, 0, 0, 1, 2]);
    assert_eq!(
        RSocketFrame::Error { id: 7, message: "no".to_string() }.encode(),
        vec![0x0B, 0, 0, 0, 7, b'n', b'o']
    );
    assert_eq!(RSocketClient::new("rs://x").endpoint, "rs://x");
}

#[test]
fn polling_gives_up_after_max_attempts() {
    let cfg = PollConfig { max_attempts: 5, initial_delay_ms: 100, max_delay_ms: 250, timeout_total_secs: 1_000 };
    let t = QueueTicket("tk".to_string());
    let mut state = poll_start(&cfg);
    let mut requests = 0;
    let mut delays = vec![];
    loop {
        requests += 1;
        match poll_step(&cfg, state, &t, 502, "Bad Gateway", false, None, 0) {
            PollAction::Wait { delay_ms, next } => {
                assert_eq!(next.attempts, state.attempts + 1);
                delays.push(delay_ms);
                state = next;
            }
            PollAction::Fail(SmevError::Timeout) => break,
            _ => panic!("unexpected action"),
        }
    }
    assert_eq!(requests, 5);
    assert_eq!(delays, vec![100, 200, 250, 250]);
}

#[test]
fn escaped_text_has_no_markup() {
    let nasty = "<a href=\"x\">'&'</a>>";
    let escaped = xml_escape(nasty);
    assert!(!escaped.contains('<') && !escaped.contains('>'));
    assert!(!escaped.contains('"') && !escaped.contains('\''));
    assert_eq!(escaped, "&lt;a href=&quot;x&quot;&gt;&apos;&amp;&apos;&lt;/a&gt;&gt;");
}

#[test]
fn poll_unavailable_on_service_lock() {
    let cfg = PollConfig { max_attempts: 1, initial_delay_ms: 0, max_delay_ms: 0, timeout_total_secs: 1 };
    let ticket = QueueTicket("locked_ticket".to_string());
    match poll_step(&cfg, poll_start(&cfg), &ticket, 503, "503 Service Unavailable", false, None, 0) {
        PollAction::Fail(SmevError::Unavailable { reason }) => assert!(reason.contains("503")),
        _ => panic!("expected Unavailable"),
    }
}

#[test]
fn fns_check_flow_decisions() {
    let ticket = extract_ticket(r#"<Response><TicketId>tkt_12345</TicketId></Response>"#).unwrap();
    assert_eq!(ticket.0, "tkt_12345");
    let client = SmevClient::builder()
        .base_url("http://127.0.0.1:1")
        .auth_provider(AuthProvider::Certificate { path: "dummy".to_string() })
        .build()
        .unwrap();
    assert_eq!(client.queue_url(&ticket), "http://127.0.0.1:1/api/v1/queue/tkt_12345");
    let body = r#"<Response><Status>DONE</Status><IsValid>true</IsValid><IncomeConfirmed>true</IncomeConfirmed></Response>"#;
    let cfg = PollConfig::default();
    match poll_step(&cfg, poll_start(&cfg), &ticket, 200, "200 OK", false, Some(body.to_string()), 0) {
        PollAction::Ready(xml) => assert!(xml.contains("DONE")),
        _ => panic!("expected the response"),
    }
    let esia = extract_ticket(r#"<Response><TicketId>esia_5678</TicketId></Response>"#).unwrap();
    assert_eq!(esia.0, "esia_5678");
}

#[test]
fn queue_submission_outcomes() {
    let body = r#"<Response><TicketId>tkt_12345</TicketId></Response>"#.to_string();
    let t = fns_check_outcome(200, "200 OK", Some(body.clone())).unwrap();
    assert_eq!(t.0, "tkt_12345");
    match fns_check_outcome(500, "500 Internal Server Error", None) {
        Err(SmevError::Payload(m)) => assert_eq!(m, "SMEV Refused: 500 Internal Server Error"),
        _ => panic!("expected a refusal"),
    }
    match esia_profile_outcome(403, "403 Forbidden", None) {
        Err(SmevError::Payload(m)) => assert_eq!(m, "ESIA Refused: 403 Forbidden"),
        _ => panic!("expected a refusal"),
    }
    match fns_check_outcome(200, "200 OK", Some("<Response/>".to_string())) {
        Err(SmevError::Payload(m)) => assert_eq!(m, "missing <TicketId> in SMEV response"),
        _ => panic!("expected a payload error"),
    }
    assert_eq!(esia_profile_outcome(201, "201 Created", Some("<TicketId>e</TicketId>".to_string())).unwrap().0, "e");
}

fn unescape(s: &str) -> String {
    let mut out = String::new();
    let mut rest = s;
    while !rest.is_empty() {
        let mut matched = false;
        for (ent, c) in [("&lt;", '<'), ("&gt;", '>'), ("&quot;", '"'), ("&apos;", '\''), ("&amp;", '&')] {
            if rest.starts_with(ent) {
                out.push(c);
                rest = &rest[ent.len()..];
                matched = true;
                break;
            }
        }
        if !matched {
            let c = rest.chars().next().unwrap();
            out.push(c);
            rest = &rest[c.len_utf8()..];
        }
    }
    out
}

#[test]
fn escaping_round_trips() {
    for s in ["7700<bad>&\"'", "&amp;&lt;", "plain text", "", "ü&ü", "&&;;<<"] {
        let e = xml_escape(s);
        assert_eq!(unescape(&e), s);
        for (i, _) in e.match_indices('&') {
            let tail = &e[i..];
            assert!(["&lt;", "&gt;", "&quot;", "&apos;", "&amp;"].iter().any(|p| tail.starts_with(p)));
        }
    }
    assert_eq!(xml_escape("plain text"), "plain text");
}
