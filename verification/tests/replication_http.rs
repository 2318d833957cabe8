use txbase::replication::http::client::{
    reply_result,
    check_entry_limit, entries_request_path, http_status_error, is_history_unavailable, CatchUp, CatchUpStep,
    ReplicationHttpClient, ReplicationRetryPolicy, DEFAULT_TIMEOUT_NANOS,
};
use txbase::replication::http::protocol::{
    ConfigProblem, ReplicationHttpError, ReplicationHttpStatus, ReplicationProgressResponse,
    ReplicationProgressResponseOutcome, ResponseProblem, UrlProblem,
};
use txbase::replication::http::response::{parse_response, parse_response_head, response_byte_limit, MAX_HTTP_HEADER_BYTES};
use txbase::replication::log::{ApplyOutcome, ReplicationLog};
use txbase::replication::{InvalidReason, ReplicationError, REPLICATION_TRANSPORT_VERSION};

const SECOND: u128 = 1_000_000_000;

#[test]
fn client_validates_plain_http_configuration() {
    assert!(matches!(
        ReplicationHttpClient::new("https://127.0.0.1"),
        Err(ReplicationHttpError::UnsupportedScheme(scheme)) if scheme == "https"
    ));
    assert!(matches!(
        ReplicationHttpClient::new("http://127.0.0.1?token=secret"),
        Err(ReplicationHttpError::InvalidUrl(_))
    ));
    assert!(matches!(
        ReplicationHttpClient::new("http://127.0.0.1").unwrap().with_timeout(0),
        Err(ReplicationHttpError::InvalidConfig(_))
    ));
    assert!(matches!(
        ReplicationHttpClient::new("http://127.0.0.1")
            .unwrap()
            .with_bearer_token("secret\r\nX-Injected: yes".to_owned()),
        Err(ReplicationHttpError::InvalidConfig(_))
    ));
    assert!(matches!(ReplicationRetryPolicy::new(0, 0, 0), Err(ReplicationHttpError::InvalidConfig(_))));
    assert!(matches!(
        ReplicationRetryPolicy::new(2, 2 * SECOND, SECOND),
        Err(ReplicationHttpError::InvalidConfig(_))
    ));
}

#[test]
fn new_client_uses_defaults_and_the_url_parts() {
    let client = ReplicationHttpClient::new("http://example.test:9000/api/").unwrap();
    assert_eq!(client.host(), "example.test");
    assert_eq!(client.port(), 9000);
    assert_eq!(client.timeout_nanos(), DEFAULT_TIMEOUT_NANOS);
    let policy = client.retry_policy();
    assert_eq!(policy.max_attempts(), 3);
    assert_eq!(policy.initial_backoff_nanos(), 50_000_000);
    assert_eq!(policy.max_backoff_nanos(), SECOND);
    assert!(matches!(
        ReplicationHttpClient::new("http://user@host"),
        Err(ReplicationHttpError::InvalidUrl(UrlProblem::HostWithUserInfo))
    ));
}

#[test]
fn request_head_carries_base_path_credential_and_body_length() {
    let client = ReplicationHttpClient::new("http://127.0.0.1:8080/api")
        .unwrap()
        .with_bearer_token("secret".to_owned())
        .unwrap();
    let head = client.request_head("GET", "/replication/status", None).unwrap();
    assert_eq!(
        head,
        "GET /api/replication/status HTTP/1.1\r\nHost: 127.0.0.1:8080\r\nAccept: application/json\r\nConnection: close\r\nAuthorization: Bearer secret\r\n\r\n"
    );
    let plain = ReplicationHttpClient::new("http://127.0.0.1").unwrap();
    let head = plain.request_head("POST", "/replication/entry", Some(12)).unwrap();
    assert_eq!(
        head,
        "POST /replication/entry HTTP/1.1\r\nHost: 127.0.0.1:80\r\nAccept: application/json\r\nConnection: close\r\nContent-Type: application/json\r\nContent-Length: 12\r\n\r\n"
    );
    assert!(matches!(
        plain.target("replication/status"),
        Err(ReplicationHttpError::InvalidConfig(ConfigProblem::EndpointPathInvalid))
    ));
    assert!(matches!(
        plain.target("/a b"),
        Err(ReplicationHttpError::InvalidConfig(ConfigProblem::EndpointPathInvalid))
    ));
}

#[test]
fn retry_schedule_doubles_up_to_the_maximum_and_stops() {
    let policy = ReplicationRetryPolicy::new(4, 300_000_000, 1_000_000_000).unwrap();
    let io = ReplicationHttpError::Io("reset".to_owned());
    let first = policy.first_attempt();
    assert_eq!(first.attempt(), 1);
    let (pause, second) = policy.after_failure(&first, &io).unwrap();
    assert_eq!(pause, 300_000_000);
    assert_eq!(second.attempt(), 2);
    assert_eq!(second.backoff_nanos(), 600_000_000);
    let (pause, third) = policy.after_failure(&second, &io).unwrap();
    assert_eq!(pause, 600_000_000);
    assert_eq!(third.backoff_nanos(), 1_000_000_000);
    let (_, fourth) = policy.after_failure(&third, &io).unwrap();
    assert_eq!(fourth.attempt(), 4);
    assert!(policy.after_failure(&fourth, &io).is_none());
}

#[test]
fn only_transient_failures_are_retried() {
    let policy = ReplicationRetryPolicy::new(2, 0, 0).unwrap();
    let state = policy.first_attempt();
    let unavailable = http_status_error(503, Some("temporarily_unavailable".to_owned()), None);
    assert!(policy.after_failure(&state, &unavailable).is_some());
    let conflict = http_status_error(409, Some("conflict".to_owned()), Some("conflict".to_owned()));
    assert!(policy.after_failure(&state, &conflict).is_none());
    assert!(!conflict.is_retryable());
    assert!(ReplicationHttpError::Io("timeout".to_owned()).is_retryable());
    assert!(!ReplicationHttpError::InvalidResponse(ResponseProblem::Json).is_retryable());
}

#[test]
fn status_errors_default_their_message_and_flag_compacted_history() {
    let error = http_status_error(409, Some("replication_history_unavailable".to_owned()), None);
    assert!(matches!(
        &error,
        ReplicationHttpError::HttpStatus { status: 409, code: Some(_), message } if message == "replication request failed"
    ));
    assert!(is_history_unavailable(&error));
    assert!(!is_history_unavailable(&http_status_error(410, Some("replication_history_unavailable".to_owned()), None)));
    assert!(!is_history_unavailable(&http_status_error(409, None, None)));
}

#[test]
fn entry_page_paths_check_their_limit() {
    assert_eq!(entries_request_path(0, 1).unwrap(), "/replication/entries?after=0&limit=1");
    assert_eq!(entries_request_path(42, 128).unwrap(), "/replication/entries?after=42&limit=128");
    for limit in [0, 129] {
        assert!(matches!(
            entries_request_path(1, limit),
            Err(ReplicationHttpError::Replication(ReplicationError::Invalid(InvalidReason::BatchLimitOutOfRange)))
        ));
        assert!(check_entry_limit(limit).is_err());
    }
}

#[test]
fn responses_are_framed_by_their_content_length() {
    let reply = parse_response(b"HTTP/1.1 200 OK\r\nContent-Length: 2\r\n\r\n{}", 16).unwrap();
    assert_eq!(reply.status, 200);
    assert_eq!(reply.body, b"{}".to_vec());
    assert!(reply.is_success());

    let failure = parse_response(b"HTTP/1.1 503 Busy\r\ncontent-length: 0\r\n\r\n", 16).unwrap();
    assert_eq!(failure.status, 503);
    assert!(!failure.is_success());

    let cases: Vec<(&[u8], ResponseProblem)> = vec![
        (b"HTTP/1.1 200 OK\r\nContent-Length: 2\r\n", ResponseProblem::HeadersIncomplete),
        (b"HTTP/1.1 200 OK\r\n\r\n{}", ResponseProblem::ContentLengthMissing),
        (b"HTTP/1.1 200 OK\r\nContent-Length: 3\r\n\r\n{}", ResponseProblem::ContentLengthMismatch { declared: 3, received: 2 }),
        (b"HTTP/1.1 200 OK\r\nContent-Length: 99\r\n\r\n{}", ResponseProblem::BodyTooLarge),
        (b"HTTP/1.1 200 OK\r\nContent-Length: x\r\n\r\n{}", ResponseProblem::ContentLengthInvalid),
        (b"HTTP/1.1 200 OK\r\nContent-Length: 2\r\nContent-Length: 2\r\n\r\n{}", ResponseProblem::ContentLengthRepeated),
        (b"HTTP/1.1 200 OK\r\nTransfer-Encoding: chunked\r\n\r\n", ResponseProblem::ChunkedUnsupported),
        (b"HTTP/1.1 200 OK\r\nno colon\r\n\r\n", ResponseProblem::HeaderMalformed),
        (b"HTTP/1.1\r\nContent-Length: 0\r\n\r\n", ResponseProblem::StatusMissing),
        (b"HTTP/1.1 abc OK\r\nContent-Length: 0\r\n\r\n", ResponseProblem::StatusInvalid),
        (b"SPDY/1 200 OK\r\nContent-Length: 0\r\n\r\n", ResponseProblem::VersionInvalid),
        (b"HTTP/1.1 200 OK\r\nX: \xff\r\n\r\n", ResponseProblem::HeadersNotUtf8),
    ];
    for (bytes, problem) in cases {
        match parse_response(bytes, 16) {
            Err(ReplicationHttpError::InvalidResponse(p)) => assert_eq!(p, problem),
            other => panic!("unexpected {other:?}"),
        }
    }
}

#[test]
fn response_bounds_apply_to_headers_and_the_whole_response() {
    assert_eq!(response_byte_limit(10), 10 + MAX_HTTP_HEADER_BYTES);
    assert_eq!(response_byte_limit(usize::MAX), usize::MAX);
    let mut long_header = b"HTTP/1.1 200 OK\r\nX: ".to_vec();
    long_header.extend(std::iter::repeat(b'a').take(MAX_HTTP_HEADER_BYTES));
    long_header.extend_from_slice(b"\r\nContent-Length: 0\r\n\r\n");
    assert!(matches!(
        parse_response(&long_header, MAX_HTTP_HEADER_BYTES),
        Err(ReplicationHttpError::InvalidResponse(ResponseProblem::HeadersTooLarge))
    ));
    let oversized = vec![b'a'; 20 + MAX_HTTP_HEADER_BYTES];
    assert!(matches!(
        parse_response(&oversized, 10),
        Err(ReplicationHttpError::InvalidResponse(ResponseProblem::TooLarge))
    ));
}

#[test]
fn response_heads_trim_header_values_and_ignore_other_headers() {
    assert_eq!(
        parse_response_head("HTTP/1.0 204 No Content\r\nServer: x\r\nCONTENT-LENGTH:  +7 \r\nTransfer-Encoding:  ").unwrap(),
        (204, Some(7))
    );
    assert_eq!(parse_response_head("HTTP/1.1 301").unwrap(), (301, None));
}

fn status(role: &str, last_index: u64) -> ReplicationHttpStatus {
    ReplicationHttpStatus {
        transport_version: REPLICATION_TRANSPORT_VERSION,
        role: role.to_owned(),
        term: 4,
        base_index: 2,
        base_transaction_id: 2,
        last_index,
        last_transaction_id: last_index,
        follower_count: 0,
        safe_compaction_index: None,
        schema_tag: "schema-v1".to_owned(),
    }
}

#[test]
fn catch_up_checks_the_authority_and_walks_to_its_position() {
    let log = ReplicationLog::new(4).unwrap();
    let schema = "schema-v1".to_owned();
    assert!(matches!(
        CatchUp::begin(1, &status("follower", 5), &log, &schema),
        Err(ReplicationHttpError::Replication(ReplicationError::Invalid(InvalidReason::CatchUpRequiresAuthority)))
    ));
    assert!(matches!(
        CatchUp::begin(1, &status("authority", 5), &log, &"other".to_owned()),
        Err(ReplicationHttpError::Replication(ReplicationError::SchemaMismatch { .. }))
    ));
    assert!(CatchUp::begin(0, &status("authority", 5), &log, &schema).is_err());

    let mut run = CatchUp::begin(2, &status("authority", 5), &log, &schema).unwrap();
    assert_eq!(run.next_step(&log), CatchUpStep::InstallSnapshot);
    run.snapshot_done(ApplyOutcome::SnapshotInstalled { index: 2, transaction_id: 2 });
    assert_eq!(run.next_step(&log), CatchUpStep::FetchEntries { after_index: 0, limit: 2 });
    let compacted = http_status_error(409, Some("replication_history_unavailable".to_owned()), None);
    assert!(run.entries_failed(compacted).is_err());

    let done = ReplicationLog::with_position(4, 5, 5).unwrap();
    assert_eq!(run.next_step(&done), CatchUpStep::Acknowledge);
    let mut outcomes = Vec::new();
    outcomes.push(ApplyOutcome::Applied { index: 1, transaction_id: 1 });
    outcomes.push(ApplyOutcome::Duplicate { index: 2, transaction_id: 2 });
    assert!(run.page_applied(0, &done, &outcomes, None).is_ok());
    assert!(matches!(
        run.page_applied(5, &done, &outcomes, None),
        Err(ReplicationHttpError::Replication(ReplicationError::Invalid(InvalidReason::PageDidNotAdvance)))
    ));
    let result = run.finish(ReplicationProgressResponse {
        transport_version: REPLICATION_TRANSPORT_VERSION,
        outcome: ReplicationProgressResponseOutcome::Accepted,
        follower_id: "follower-1".to_owned(),
        index: 5,
        transaction_id: 5,
        safe_compaction_index: None,
    });
    assert!(result.snapshot_installed);
    assert_eq!(result.entries_applied, 2);
}

#[test]
fn a_first_compacted_history_failure_schedules_one_snapshot() {
    let log = ReplicationLog::with_position(4, 3, 3).unwrap();
    let schema = "schema-v1".to_owned();
    let mut run = CatchUp::begin(1, &status("authority", 6), &log, &schema).unwrap();
    assert_eq!(run.next_step(&log), CatchUpStep::FetchEntries { after_index: 3, limit: 1 });
    let compacted = http_status_error(409, Some("replication_history_unavailable".to_owned()), None);
    assert!(run.entries_failed(compacted).is_ok());
    assert_eq!(run.next_step(&log), CatchUpStep::InstallSnapshot);
    let other = http_status_error(500, None, None);
    let mut fresh = CatchUp::begin(1, &status("authority", 6), &log, &schema).unwrap();
    assert!(matches!(fresh.entries_failed(other), Err(ReplicationHttpError::HttpStatus { status: 500, .. })));
    let behind = ReplicationLog::with_position(4, 9, 9).unwrap();
    assert!(matches!(
        CatchUp::begin(1, &status("authority", 6), &behind, &schema),
        Err(ReplicationHttpError::Replication(ReplicationError::EntriesUnavailable { requested: 9, applied: 6 }))
    ));
}

#[test]
fn client_does_not_retry_terminal_replication_status() {
    let policy = ReplicationRetryPolicy::new(2, 0, 0).unwrap();
    let mut state = policy.first_attempt();
    let mut attempts = 0;
    let outcome = loop {
        attempts += 1;
        let body = br#"{"error":{"code":"conflict","message":"temporary replication failure"}}"#;
        let mut response = format!("HTTP/1.1 409 Service Unavailable\r\nContent-Length: {}\r\n\r\n", body.len()).into_bytes();
        response.extend_from_slice(body);
        let reply = parse_response(&response, 1_048_576).unwrap();
        let error = reply_result(reply, Some((Some("conflict".to_owned()), Some("temporary replication failure".to_owned()))))
            .unwrap_err();
        match policy.after_failure(&state, &error) {
            Some((_, next)) => state = next,
            None => break error,
        }
    };

    assert!(matches!(
        outcome,
        ReplicationHttpError::HttpStatus { status: 409, code: Some(code), .. } if code == "conflict"
    ));
    assert_eq!(attempts, 1);
}

#[test]
fn non_success_replies_become_status_errors() {
    let body = br#"{"error":{"code":"conflict","message":"temporary replication failure"}}"#;
    let mut response = format!(
        "HTTP/1.1 409 Service Unavailable\r\nContent-Type: application/json\r\nContent-Length: {}\r\n\r\n",
        body.len()
    )
    .into_bytes();
    response.extend_from_slice(body);
    let reply = parse_response(&response, 1_048_576).unwrap();
    let result = reply_result(reply, Some((Some("conflict".to_owned()), Some("temporary replication failure".to_owned()))));
    assert!(matches!(
        result,
        Err(ReplicationHttpError::HttpStatus { status: 409, code: Some(c), message: m })
            if c == "conflict" && m == "temporary replication failure"
    ));

    let reply = parse_response(b"HTTP/1.1 503 Busy\r\nContent-Length: 2\r\n\r\nno", 64).unwrap();
    assert!(matches!(
        reply_result(reply, None),
        Err(ReplicationHttpError::HttpStatus { status: 503, code: None, message: m }) if m == "replication request failed"
    ));

    let reply = parse_response(b"HTTP/1.1 200 OK\r\nContent-Length: 2\r\n\r\n{}", 64).unwrap();
    assert_eq!(reply_result(reply, None).unwrap(), b"{}".to_vec());
}
