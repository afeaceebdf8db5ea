use kin_vfs::notify::{
    attempt_notify, build_notify_request, escape_json_string, hex_encode, notify_is_retryable,
    notify_verdict, notify_write_sync, parse_host_port, parse_notify_response, read_daemon_port,
    resolve_host_port_from, resolve_notify_target, resolve_token_from, NotifyAttempt,
    NotifyResponse, NotifyStep, NotifyTarget, NotifyVerdict, NotifyWarnings, DEFAULT_DAEMON_HOST,
    DEFAULT_DAEMON_PORT,
};

// ── Notification serialization tests ─────────────────────────────────

#[test]
fn escape_json_string_basic() {
    assert_eq!(escape_json_string("src/main.rs"), "src/main.rs");
}

#[test]
fn escape_json_string_special_chars() {
    assert_eq!(
        escape_json_string(r#"path\with"quotes"#),
        r#"path\\with\"quotes"#
    );
    assert_eq!(escape_json_string("line\nnew"), r#"line\nnew"#);
}

#[test]
fn notification_body_is_valid_json() {
    let path = "src/main.rs";
    let body = format!(r#"{{"path":"{}"}}"#, escape_json_string(path));
    assert_eq!(body, r#"{"path":"src/main.rs"}"#);
}

#[test]
fn notification_body_with_special_path() {
    let path = r#"src/file "name".rs"#;
    let body = format!(r#"{{"path":"{}"}}"#, escape_json_string(path));
    // Quotes in path must be escaped.
    assert_eq!(body, r#"{"path":"src/file \"name\".rs"}"#);
}

// ── Write-notify discovery + auth tests ──────────────────────────────

#[test]
fn parse_host_port_handles_scheme_authority_and_path() {
    assert_eq!(
        parse_host_port("http://127.0.0.1:5050"),
        Some(("127.0.0.1".to_string(), 5050))
    );
    // Scheme is optional; trailing path/query are ignored.
    assert_eq!(
        parse_host_port("127.0.0.1:8080/vfs/write-notify?x=1"),
        Some(("127.0.0.1".to_string(), 8080))
    );
    // No explicit port falls back to the daemon default.
    assert_eq!(
        parse_host_port("http://localhost"),
        Some(("localhost".to_string(), DEFAULT_DAEMON_PORT))
    );
    // Empty/garbage authority yields None so the caller falls through.
    assert_eq!(parse_host_port("http://"), None);
    assert_eq!(parse_host_port("http://127.0.0.1:not-a-port"), None);
}

#[test]
fn resolve_host_port_precedence_env_then_port_file_then_default() {
    // Env override wins over the port file.
    assert_eq!(
        resolve_host_port_from(Some("http://127.0.0.1:9999"), Some(5050)),
        ("127.0.0.1".to_string(), 9999)
    );
    // Port file is honored when there is no env override.
    assert_eq!(
        resolve_host_port_from(None, Some(5050)),
        ("127.0.0.1".to_string(), 5050)
    );
    // Neither source → the `:4219` default.
    assert_eq!(
        resolve_host_port_from(None, None),
        (DEFAULT_DAEMON_HOST.to_string(), DEFAULT_DAEMON_PORT)
    );
    // A malformed env override falls through to the port file rather than
    // dialing a bad authority.
    assert_eq!(
        resolve_host_port_from(Some("http://"), Some(5050)),
        ("127.0.0.1".to_string(), 5050)
    );
}

#[test]
fn resolve_token_precedence_env_then_file_then_none() {
    // Env override beats the file token.
    assert_eq!(
        resolve_token_from(Some("env-token"), Some("file-token")).as_deref(),
        Some("env-token")
    );
    // File token is used when there is no env override.
    assert_eq!(
        resolve_token_from(None, Some("file-token")).as_deref(),
        Some("file-token")
    );
    // Neither source → None, so no `Authorization` header is sent.
    assert_eq!(resolve_token_from(None, None), None);
    // Blank sources are treated as absent (never a bare `Bearer `), and the
    // resolved token is trimmed to match what the daemon parses.
    assert_eq!(
        resolve_token_from(Some("   "), Some("  file-token  ")).as_deref(),
        Some("file-token")
    );
    assert_eq!(resolve_token_from(Some(""), Some("   ")), None);
}

#[test]
fn notify_request_omits_auth_header_when_no_token() {
    let target = NotifyTarget {
        host: "127.0.0.1".to_string(),
        port: 4219,
        token: None,
    };
    let req = build_notify_request(b"src/main.rs", &target, None);

    assert!(req.starts_with("POST /vfs/write-notify HTTP/1.1\r\n"));
    // Host carries the resolved authority (the daemon's loopback allowlist
    // rejects non-public routes with a missing/foreign Host).
    assert!(req.contains("Host: 127.0.0.1:4219\r\n"));
    // No token configured → no Authorization header, never a bare Bearer.
    assert!(!req.contains("Authorization:"));
    assert!(req.contains(r#"{"path":{"bytes_hex":"7372632f6d61696e2e7273"}}"#));
}

/// The write-notify body must match what the Kin daemon parses.
#[test]
fn notify_body_matches_the_shared_golden_fixture() {
    const FIXTURE: &str = r#"{
  "path": { "bytes_hex": "7372632f6d61696e2e7273" },
  "session_id": "sess-42"
}"#;

    // The fixture is pretty-printed for reading; the wire body is compact.
    // Compare the decoded fields rather than the whitespace.
    let fixture: serde_json::Value =
        serde_json::from_str(FIXTURE).expect("fixture must be valid JSON");
    assert_eq!(
        fixture["path"]["bytes_hex"].as_str().unwrap(),
        hex_encode(b"src/main.rs"),
        "write-notify must carry canonical lowercase-hex path bytes"
    );
    assert_eq!(fixture["session_id"].as_str().unwrap(), "sess-42");

    // And the request the shim actually builds carries that same envelope.
    let target = NotifyTarget {
        host: "127.0.0.1".to_string(),
        port: 4219,
        token: None,
    };
    let request = build_notify_request(b"src/main.rs", &target, None);
    assert!(
        request.contains(&format!(
            r#""path":{{"bytes_hex":"{}"}}"#,
            hex_encode(b"src/main.rs")
        )),
        "emitted body must use the fixture's path envelope: {request}"
    );

    let request = build_notify_request(b"src/main.rs", &target, Some("sess-42"));
    let body = request.split("\r\n\r\n").nth(1).unwrap();
    let sent: serde_json::Value = serde_json::from_str(body).expect("the body is JSON");
    assert_eq!(sent, fixture);
}

#[test]
fn notify_body_carries_non_utf8_paths_losslessly() {
    // The whole point of bytes_hex: a JSON string could not carry this
    // path without lossy substitution, which would misattribute the write.
    let raw = b"logs/x-\xff\xfe.log";
    let target = NotifyTarget {
        host: "127.0.0.1".to_string(),
        port: 4219,
        token: None,
    };
    let request = build_notify_request(raw, &target, None);
    let encoded = hex_encode(raw);
    assert_eq!(encoded, "6c6f67732f782dfffe2e6c6f67");
    assert!(request.contains(&encoded), "{request}");
    // Round-trip proves no byte was replaced.
    assert_eq!(
        (0..encoded.len())
            .step_by(2)
            .map(|i| u8::from_str_radix(&encoded[i..i + 2], 16).unwrap())
            .collect::<Vec<u8>>(),
        raw
    );
}

#[test]
fn notify_request_carries_bearer_token_and_resolved_authority() {
    let target = NotifyTarget {
        host: "127.0.0.1".to_string(),
        port: 5050,
        token: Some("secret-token".to_string()),
    };
    let req = build_notify_request(b"src/lib.rs", &target, None);

    assert!(req.contains("Host: 127.0.0.1:5050\r\n"));
    assert!(req.contains("Authorization: Bearer secret-token\r\n"));
    // Content-Length must match the JSON body exactly.
    let body = r#"{"path":{"bytes_hex":"7372632f6c69622e7273"}}"#;
    assert!(req.contains(&format!("Content-Length: {}\r\n", body.len())));
    assert!(req.ends_with(body));
}

#[test]
fn a_request_is_written_out_in_full() {
    let target = NotifyTarget {
        host: "localhost".to_string(),
        port: 80,
        token: Some("t".to_string()),
    };
    assert_eq!(target.authority(), "localhost:80");
    assert_eq!(
        build_notify_request(b"a", &target, Some("s\"1")),
        "POST /vfs/write-notify HTTP/1.1\r\nHost: localhost:80\r\n\
         Authorization: Bearer t\r\nContent-Type: application/json\r\n\
         Content-Length: 47\r\nConnection: close\r\n\r\n\
         {\"path\":{\"bytes_hex\":\"61\"},\"session_id\":\"s\\\"1\"}"
    );
}

#[test]
fn port_files_hold_a_trimmed_number() {
    assert_eq!(read_daemon_port(Some(" 5050\n")), Some(5050));
    assert_eq!(read_daemon_port(Some("65536")), None);
    assert_eq!(read_daemon_port(Some("")), None);
    assert_eq!(read_daemon_port(None), None);
}

#[test]
fn a_target_takes_each_part_from_its_first_source() {
    let target = resolve_notify_target(Some(" "), Some("5050\n"), None, Some(" tok \n"));
    assert_eq!(
        (target.host.as_str(), target.port, target.token.as_deref()),
        ("127.0.0.1", 5050, Some("tok"))
    );
    let target = resolve_notify_target(Some("http://h:1/x"), Some("5050"), Some("e"), Some("f"));
    assert_eq!(
        (target.host.as_str(), target.port, target.token.as_deref()),
        ("h", 1, Some("e"))
    );
}

// ── Write-notify acknowledgement tests ─────────────────────────
//
// The shim must REQUIRE and PARSE a successful daemon reply, not fire and
// forget. `parse_notify_response` classifies the status line + body; a
// socket-level round trip proves `attempt_notify` maps real daemon replies
// (ack / soft-block / auth / veto) to the right outcome.

#[test]
fn parse_notify_response_classifies_status_and_body() {
    // 200 + reindexed:true is the ONLY acknowledged success.
    assert_eq!(
        parse_notify_response(
            b"HTTP/1.1 200 OK\r\n\r\n{\"reindexed\":true,\"entity_count\":1}"
        ),
        NotifyResponse::Acked
    );
    // 200 with reindexed:false is a soft-block / reconcile failure — reached
    // but not converged, must NOT read as success.
    assert_eq!(
        parse_notify_response(b"HTTP/1.1 200 OK\r\n\r\n{\"reindexed\":false,\"error\":\"x\"}"),
        NotifyResponse::NotReindexed
    );
    // A 2xx with no confirmation field is surfaced, never silently accepted.
    assert_eq!(
        parse_notify_response(b"HTTP/1.1 204 No Content\r\n\r\n"),
        NotifyResponse::NotReindexed
    );
    // Non-2xx (auth / veto / server error) are rejections carrying the code.
    assert_eq!(
        parse_notify_response(b"HTTP/1.1 401 Unauthorized\r\n\r\n"),
        NotifyResponse::Rejected(401)
    );
    assert_eq!(
        parse_notify_response(b"HTTP/1.1 409 Conflict\r\n\r\n{\"error\":\"write_veto\"}"),
        NotifyResponse::Rejected(409)
    );
    assert_eq!(
        parse_notify_response(b"HTTP/1.1 500 Internal Server Error\r\n\r\n"),
        NotifyResponse::Rejected(500)
    );
    // Non-HTTP garbage is unparsable (surfaced, not treated as success).
    assert_eq!(
        parse_notify_response(b"not-an-http-response"),
        NotifyResponse::Unparsable
    );
}

#[test]
fn only_a_confirmed_200_is_an_acknowledgement() {
    for (status, expected) in [
        ("200 OK", NotifyResponse::Acked),
        ("201 Created", NotifyResponse::NotReindexed),
        ("202 Accepted", NotifyResponse::NotReindexed),
        ("299 Odd", NotifyResponse::NotReindexed),
        ("199 Early", NotifyResponse::Rejected(199)),
        ("300 Choices", NotifyResponse::Rejected(300)),
    ] {
        let raw = format!("HTTP/1.1 {status}\r\n\r\n{{\"reindexed\":true}}");
        assert_eq!(parse_notify_response(raw.as_bytes()), expected, "{status}");
    }
}

#[test]
fn notify_retry_policy_only_retries_transient_and_5xx() {
    assert!(notify_is_retryable(NotifyAttempt::Transient));
    assert!(notify_is_retryable(NotifyAttempt::Responded(
        NotifyResponse::Rejected(503)
    )));
    // Deterministic client rejections are never retried.
    assert!(!notify_is_retryable(NotifyAttempt::Responded(
        NotifyResponse::Rejected(401)
    )));
    assert!(!notify_is_retryable(NotifyAttempt::Responded(
        NotifyResponse::Rejected(409)
    )));
    // Definitive replies are not retried.
    assert!(!notify_is_retryable(NotifyAttempt::Responded(
        NotifyResponse::Acked
    )));
    assert!(!notify_is_retryable(NotifyAttempt::Responded(
        NotifyResponse::NotReindexed
    )));
    assert!(!notify_is_retryable(NotifyAttempt::Unreachable));
}

#[test]
fn attempt_notify_maps_daemon_replies_over_a_socket() {
    let cases: [(&'static str, NotifyAttempt); 3] = [
        (
            "HTTP/1.1 200 OK\r\nConnection: close\r\n\r\n{\"reindexed\":true,\"entity_count\":2}",
            NotifyAttempt::Responded(NotifyResponse::Acked),
        ),
        (
            "HTTP/1.1 200 OK\r\nConnection: close\r\n\r\n{\"reindexed\":false,\"entity_count\":0}",
            NotifyAttempt::Responded(NotifyResponse::NotReindexed),
        ),
        (
            "HTTP/1.1 401 Unauthorized\r\nConnection: close\r\n\r\n",
            NotifyAttempt::Responded(NotifyResponse::Rejected(401)),
        ),
    ];

    for (resp, expected) in cases {
        assert_eq!(attempt_notify(true, true, resp.as_bytes()), expected, "for {resp:?}");
    }
}

#[test]
fn attempt_notify_reports_unreachable_when_nothing_listens() {
    assert_eq!(attempt_notify(false, false, b""), NotifyAttempt::Unreachable);
}

#[test]
fn an_exchange_that_breaks_off_is_transient() {
    assert_eq!(attempt_notify(true, false, b""), NotifyAttempt::Transient);
    assert_eq!(attempt_notify(true, true, b""), NotifyAttempt::Transient);
}

#[test]
fn bytes_outside_utf8_are_read_as_replacements() {
    assert_eq!(
        parse_notify_response(b"HTTP/1.1 200 OK\xff\r\n\r\n{\"reindexed\": true,\"x\":\"\xfe\"}"),
        NotifyResponse::Acked
    );
    assert_eq!(parse_notify_response(b"HTTP/1.1 2\xff0 OK\r\n\r\n"), NotifyResponse::Unparsable);
}

#[test]
fn a_notification_is_tried_twice_at_most() {
    let failed = NotifyAttempt::Responded(NotifyResponse::Rejected(500));
    assert_eq!(notify_write_sync(false, failed), NotifyStep::Retry);
    assert_eq!(
        notify_write_sync(true, failed),
        NotifyStep::Done(NotifyVerdict::Unconfirmed)
    );
    assert_eq!(
        notify_write_sync(false, NotifyAttempt::Unreachable),
        NotifyStep::Done(NotifyVerdict::Unreachable)
    );
    assert_eq!(
        notify_verdict(NotifyAttempt::Responded(NotifyResponse::Acked)),
        NotifyVerdict::Confirmed
    );
}

#[test]
fn each_warning_is_due_once() {
    let mut warnings = NotifyWarnings::new();
    assert!(!warnings.due(NotifyVerdict::Confirmed));
    assert!(warnings.due(NotifyVerdict::Unreachable));
    assert!(!warnings.due(NotifyVerdict::Unreachable));
    assert!(warnings.due(NotifyVerdict::Unconfirmed));
    assert!(!warnings.due(NotifyVerdict::Unconfirmed));
}
