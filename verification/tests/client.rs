use kin_vfs::client::{
    announce_interpose, backoff_with_jitter, client_access, client_access_named_pipe, client_exists,
    client_exists_named_pipe, client_read_dir, client_read_dir_named_pipe, client_read_file,
    client_read_file_named_pipe, client_read_link_named_pipe, client_read_range_named_pipe,
    client_stat_named_pipe,
    client_read_link, client_read_range, client_stat, encode_frame, frame_length,
    report_interpose_bypass, response_failure, stat_probe, Announcement, BypassAction,
    BypassEvent, BypassReport, CallAction, CallEvent,
    CallVerdict, ClientCall, ClientCallFailure, LastCall, BACKOFF_INITIAL_MS, BACKOFF_MAX_MS,
    BACKOFF_MAX_RETRIES, MAX_FRAME_SIZE,
};
use kin_vfs::graph_walk::StatProbe;
use kin_vfs::protocol::{ErrorCode, VfsRequest, VfsResponse};
use kin_vfs::socket::{ConnectAction, ConnectEvent, SocketConnect};
use kin_vfs::types::VirtualStat;

fn regular_file(size: u64, content_hash: [u8; 32], executable: bool, mtime: u64) -> VirtualStat {
    VirtualStat {
        size,
        is_file: true,
        is_dir: false,
        is_symlink: false,
        mode: if executable { 0o755 } else { 0o644 },
        mtime,
        ctime: mtime,
        nlink: 1,
        content_hash: Some(content_hash),
        object_id: None,
    }
}

// ── Framing ─────────────────────────────────────────────────────────

#[test]
fn framing_encode_decode() {
    // The exact wire format: 4-byte BE length + msgpack payload.
    let payload = rmp_serde::to_vec("Ping").unwrap();
    let len = payload.len() as u32;

    let wire = encode_frame(&payload);

    // Decode
    let decoded_len = u32::from_be_bytes([wire[0], wire[1], wire[2], wire[3]]);
    assert_eq!(decoded_len, len);
    assert_eq!(frame_length(&[wire[0], wire[1], wire[2], wire[3]]), Some(len));
    let decoded: String = rmp_serde::from_slice(&wire[4..]).unwrap();
    assert_eq!(decoded, "Ping");
}

#[test]
fn oversized_frames_are_refused() {
    assert_eq!(frame_length(&MAX_FRAME_SIZE.to_be_bytes()), Some(MAX_FRAME_SIZE));
    assert_eq!(frame_length(&(MAX_FRAME_SIZE + 1).to_be_bytes()), None);
    assert_eq!(frame_length(&[0, 0, 0, 0]), Some(0));
}

// ── Backoff tests ───────────────────────────────────────────────────

#[test]
fn backoff_respects_bounds() {
    for (attempt, thread) in (0..12).flat_map(|attempt| [0, 1, 77, u64::MAX].map(|t| (attempt, t))) {
        let ms = backoff_with_jitter(attempt, thread);

        // Must always be >= 1ms (the .max(1) floor).
        assert!(ms >= 1, "attempt {attempt}: duration {ms}ms < 1ms");

        // Must never exceed max + 25% jitter.
        let upper = BACKOFF_MAX_MS + BACKOFF_MAX_MS / 4;
        assert!(
            ms <= upper,
            "attempt {attempt}: duration {ms}ms > upper bound {upper}ms"
        );
    }
}

#[test]
fn backoff_grows_exponentially() {
    // Median of the base (without jitter) should roughly double.
    // We check that attempt 3 base is larger than attempt 0 base.
    let base_0 = BACKOFF_INITIAL_MS; // 50
    let base_3 = BACKOFF_INITIAL_MS.saturating_mul(1u64 << 3); // 400
    assert!(base_3 > base_0);
    assert_eq!(base_3, 400);
}

#[test]
fn delays_double_until_the_cap() {
    for thread in [0u64, 1, 12_345] {
        let base = |attempt: u32| (BACKOFF_INITIAL_MS << attempt).min(BACKOFF_MAX_MS);
        for attempt in 0..6 {
            let ms = backoff_with_jitter(attempt, thread);
            assert!(ms >= base(attempt) - base(attempt) / 4);
            assert!(ms <= base(attempt) + base(attempt) / 4);
        }
    }
}

// ── One call ────────────────────────────────────────────────────────

#[test]
fn client_recovers_after_daemon_restart() {
    let (mut call, action) = ClientCall::begin(false, false);
    assert_eq!(action, CallAction::Connect);
    assert_eq!(call.advance(CallEvent::Connected, 1), CallAction::UseNew);
    assert_eq!(
        call.advance(CallEvent::Answered, 1),
        CallAction::Finish { verdict: CallVerdict::Answered, hold: true }
    );
    let v1 = VfsResponse::Content { data: b"v1".to_vec(), total_size: 2 };
    assert_eq!(client_read_file(v1).unwrap(), b"v1");

    // The held connection belongs to the daemon that went away.
    let (mut call, action) = ClientCall::begin(true, false);
    assert_eq!(action, CallAction::UseHeld);
    assert_eq!(call.advance(CallEvent::Dropped, 1), CallAction::Connect);
    assert_eq!(call.advance(CallEvent::Connected, 1), CallAction::UseNew);
    assert_eq!(
        call.advance(CallEvent::Answered, 1),
        CallAction::Finish { verdict: CallVerdict::Answered, hold: true }
    );
    let v2 = VfsResponse::Content { data: b"v2".to_vec(), total_size: 2 };
    assert_eq!(client_read_file(v2).unwrap(), b"v2");
}

/// Makes a call to a daemon that is not there: how often it was tried, how long
/// the call slept in between, and its verdict.
fn call_nobody() -> (u32, Vec<u64>, CallVerdict) {
    let (mut call, mut action) = ClientCall::begin(false, false);
    let mut connects = 0;
    let mut sleeps = Vec::new();
    loop {
        action = match action {
            CallAction::Connect => {
                connects += 1;
                call.advance(CallEvent::Refused, 9)
            }
            CallAction::Sleep(ms) => {
                sleeps.push(ms);
                call.advance(CallEvent::Slept, 9)
            }
            CallAction::Finish { verdict, hold } => {
                assert!(!hold);
                return (connects, sleeps, verdict);
            }
            other => panic!("{other:?}"),
        };
    }
}

/// Makes a call that the daemon answers, and gives its verdict.
fn call_somebody() -> CallVerdict {
    let (mut call, action) = ClientCall::begin(false, false);
    assert_eq!(action, CallAction::Connect);
    assert_eq!(call.advance(CallEvent::Connected, 9), CallAction::UseNew);
    match call.advance(CallEvent::Answered, 9) {
        CallAction::Finish { verdict, .. } => verdict,
        other => panic!("{other:?}"),
    }
}

#[test]
fn an_unreachable_daemon_is_tried_as_often_as_allowed() {
    let (connects, sleeps, verdict) = call_nobody();
    assert_eq!(connects, BACKOFF_MAX_RETRIES);
    assert_eq!(sleeps, (0..BACKOFF_MAX_RETRIES).map(|n| backoff_with_jitter(n, 9)).collect::<Vec<_>>());
    assert_eq!(verdict, CallVerdict::Failed(ClientCallFailure::Unreachable));
}

#[test]
fn a_broken_pipe_is_not_tried_again() {
    let (mut call, _) = ClientCall::begin(false, true);
    assert_eq!(call.advance(CallEvent::Connected, 1), CallAction::UseNew);
    assert_eq!(
        call.advance(CallEvent::Dropped, 1),
        CallAction::Finish { verdict: CallVerdict::Broken, hold: false }
    );
}

// ── Graph-authority failure classification ──────────────────────────
//
// Graph absence is told from unavailable or internally inconsistent
// authority; none may consult raw disk.

#[test]
fn client_classifies_absence_unreachable_and_authority_failures() {
    let mut last = LastCall::new();

    // Down daemon: every connection failed, and the call is flagged unreachable.
    last.conclude(call_nobody().2);
    assert_eq!(
        last.last_call_failure(),
        ClientCallFailure::Unreachable,
        "an unreachable daemon must be classified separately"
    );

    // Reachable + answers Stat: success clears the failure classification.
    assert!(client_stat(VfsResponse::Stat(regular_file(3, [0u8; 32], false, 1))).is_ok());
    last.conclude(call_somebody());
    assert_eq!(
        last.last_call_failure(),
        ClientCallFailure::NoFailure,
        "a successful daemon answer must clear prior failures"
    );

    // Reachable but NOT-FOUND: absence is distinct from authority failure.
    let failure = client_stat(VfsResponse::Error {
        code: ErrorCode::NotFound,
        message: "nope".into(),
    })
    .unwrap_err();
    last.conclude(CallVerdict::Failed(failure));
    assert_eq!(
        last.last_call_failure(),
        ClientCallFailure::NotFound,
        "a reachable not-found must be classified as graph absence"
    );

    // A reachable daemon can also reject an internally inconsistent graph
    // answer (for example a blob size/hash mismatch). That is authority
    // failure, never absence and never permission to consult raw disk.
    let failure = client_stat(VfsResponse::Error {
        code: ErrorCode::Internal,
        message: "graph blob hash mismatch".into(),
    })
    .unwrap_err();
    last.conclude(CallVerdict::Failed(failure));
    assert_eq!(
        last.last_call_failure(),
        ClientCallFailure::Authority,
        "daemon integrity errors must be classified as authority failures"
    );

    // Content frames are also checked at the shim boundary. The local VFS
    // daemon may not relabel a partial/mismatched body as exact content.
    let body = VfsResponse::Content { data: b"abc".to_vec(), total_size: 4 };
    assert_eq!(client_read_file(body).unwrap_err(), ClientCallFailure::Authority);

    let range = VfsResponse::Content { data: b"abcd".to_vec(), total_size: 11 };
    assert_eq!(
        client_read_range(range, 0, 4, 10).unwrap_err(),
        ClientCallFailure::Authority
    );
}

#[test]
fn ranges_have_exactly_the_bytes_that_are_left() {
    let range = |data: &[u8], offset, len, total| {
        client_read_range(
            VfsResponse::Content { data: data.to_vec(), total_size: 10 },
            offset,
            len,
            total,
        )
    };
    assert_eq!(range(b"0123", 0, 4, 10).unwrap(), b"0123");
    assert_eq!(range(b"89", 8, 4, 10).unwrap(), b"89");
    assert_eq!(range(b"", 10, 4, 10).unwrap(), b"");
    assert_eq!(range(b"012", 0, 4, 10).unwrap_err(), ClientCallFailure::Authority);
    assert_eq!(range(b"01234", 0, 4, 10).unwrap_err(), ClientCallFailure::Authority);
    assert_eq!(range(b"0123", 0, 4, 9).unwrap_err(), ClientCallFailure::Authority);
}

#[test]
fn every_error_code_has_its_own_failure() {
    let codes = [
        (ErrorCode::NotFound, ClientCallFailure::NotFound),
        (ErrorCode::PermissionDenied, ClientCallFailure::PermissionDenied),
        (ErrorCode::IsDirectory, ClientCallFailure::IsDirectory),
        (ErrorCode::NotDirectory, ClientCallFailure::NotDirectory),
        (ErrorCode::InvalidInput, ClientCallFailure::InvalidInput),
        (ErrorCode::UnsupportedBoundary, ClientCallFailure::UnsupportedBoundary),
        (ErrorCode::Internal, ClientCallFailure::Authority),
    ];
    for (code, failure) in codes {
        let response = VfsResponse::Error { code, message: String::new() };
        assert_eq!(response_failure(&response), failure);
    }
    assert_eq!(response_failure(&VfsResponse::Pong), ClientCallFailure::Authority);
}

#[test]
fn an_answer_to_another_question_is_an_authority_failure() {
    assert_eq!(client_stat(VfsResponse::Pong).unwrap_err(), ClientCallFailure::Authority);
    assert!(client_read_dir(VfsResponse::Pong).is_err());
    assert!(client_read_link(VfsResponse::Pong).is_err());
    assert!(client_access(VfsResponse::Pong).is_err());
    assert_eq!(client_access(VfsResponse::Accessible(false)), Ok(false));
    assert_eq!(
        client_read_link(VfsResponse::LinkTarget(b"../\xff".to_vec())).unwrap(),
        b"../\xff"
    );
    assert!(client_read_dir(VfsResponse::DirEntries(Vec::new())).unwrap().is_empty());
}

#[test]
fn only_a_definitive_miss_is_absence() {
    let stat = regular_file(3, [0; 32], false, 1);
    assert!(matches!(
        stat_probe(Ok(stat), 7),
        StatProbe::Present { stat: found, generation: 7 } if found == stat
    ));
    assert!(matches!(
        stat_probe(Err(ClientCallFailure::NotFound), 7),
        StatProbe::Absent { generation: 7 }
    ));
    for failure in [
        ClientCallFailure::Unreachable,
        ClientCallFailure::Authority,
        ClientCallFailure::PermissionDenied,
    ] {
        assert!(matches!(stat_probe(Err(failure), 7), StatProbe::Unavailable));
    }
}

// ── Announcements ───────────────────────────────────────────────────

#[test]
fn a_process_announces_itself_once() {
    let mut announcement = Announcement::new();
    assert!(announcement.announce_interpose_once(true));
    assert!(!announcement.announce_interpose_once(true));
    let mut silent = Announcement::new();
    assert!(!silent.announce_interpose_once(false));
    assert!(announce_interpose(Some(&VfsResponse::Announced)));
    assert!(!announce_interpose(Some(&VfsResponse::Pong)));
    assert!(!announce_interpose(None));
}

/// Reports a bypass with these answers: what was sent, and the result.
fn report_bypass(connected: bool, answers: [Option<VfsResponse>; 2]) -> (Vec<VfsRequest>, bool) {
    let (mut report, mut action) = BypassReport::begin(42, "token", "mmap");
    let mut answers = answers.into_iter();
    let mut sent = Vec::new();
    let mut connects = 0;
    loop {
        let event = match action {
            BypassAction::Connect => {
                connects += 1;
                assert_eq!(connects, 1, "both requests go over one connection");
                if connected {
                    BypassEvent::Connected
                } else {
                    BypassEvent::Refused
                }
            }
            BypassAction::Send(request) => {
                sent.push(request);
                BypassEvent::Answer(answers.next().expect("at most two requests"))
            }
            BypassAction::Done(taken) => return (sent, taken),
        };
        action = report_interpose_bypass(&mut report, event);
    }
}

fn is_announcement(request: &VfsRequest) -> bool {
    matches!(request, VfsRequest::Announce { pid: 42, token } if token == "token")
}

fn is_report(request: &VfsRequest) -> bool {
    matches!(
        request,
        VfsRequest::CanaryBypass { token, surface } if token == "token" && surface == "mmap"
    )
}

#[test]
fn a_bypass_report_needs_both_replies() {
    let ok = || Some(VfsResponse::Announced);
    for (second, taken) in [(ok(), true), (None, false), (Some(VfsResponse::Pong), false)] {
        let (sent, result) = report_bypass(true, [ok(), second]);
        assert_eq!(sent.len(), 2);
        assert!(is_announcement(&sent[0]) && is_report(&sent[1]), "{sent:?}");
        assert_eq!(result, taken);
    }
}

#[test]
fn a_bypass_is_not_reported_behind_a_refused_announcement() {
    for first in [None, Some(VfsResponse::Pong)] {
        let (sent, result) = report_bypass(true, [first, Some(VfsResponse::Announced)]);
        assert!(sent.len() == 1 && is_announcement(&sent[0]), "{sent:?}");
        assert!(!result);
    }
    let (sent, result) = report_bypass(false, [None, None]);
    assert!(sent.is_empty() && !result);
}

#[test]
fn the_report_of_a_bypass_takes_the_place_of_the_announcement() {
    let mut announcement = Announcement::new();
    announcement.begin_bypass_report();
    assert!(!announcement.announce_interpose_once(true));
}

// ── The socket ──────────────────────────────────────────────────────

/// Runs a connection against a list of events, and names its last action.
fn connect(path: &str, capacity: usize, events: &[ConnectEvent]) -> ConnectAction {
    let (mut call, mut action) = SocketConnect::begin(path, capacity);
    for event in events {
        action = call.advance(*event);
    }
    action
}

#[test]
fn a_socket_is_handed_out_once_it_is_connected() {
    let done = ConnectEvent::Done;
    assert!(matches!(connect("/ws/s", 108, &[]), ConnectAction::MakeSocket));
    assert!(matches!(connect("/ws/s", 108, &[done]), ConnectAction::Unblock));
    assert!(matches!(
        connect("/ws/s", 108, &[done, done]),
        ConnectAction::Connect(address) if address == b"/ws/s\0"
    ));
    assert!(matches!(connect("/ws/s", 108, &[done, done, done]), ConnectAction::HandOut));
    for errno in [libc::EINPROGRESS, libc::EWOULDBLOCK] {
        let waiting = [done, done, ConnectEvent::Failed(errno)];
        assert!(matches!(connect("/ws/s", 108, &waiting), ConnectAction::Poll));
        let ready = [done, done, ConnectEvent::Failed(errno), ConnectEvent::Ready(1)];
        assert!(matches!(connect("/ws/s", 108, &ready), ConnectAction::ReadError));
        let connected = [ready.as_slice(), &[ConnectEvent::Holds(0)]].concat();
        assert!(matches!(connect("/ws/s", 108, &connected), ConnectAction::HandOut));
    }
}

#[test]
fn a_socket_that_is_not_handed_out_is_closed() {
    let done = ConnectEvent::Done;
    let failed = ConnectEvent::Failed;
    assert!(matches!(connect("/ws/s", 108, &[failed(24)]), ConnectAction::Fail));
    assert!(matches!(connect("/ws/s", 108, &[done, failed(1)]), ConnectAction::Close));
    assert!(matches!(
        connect("/ws/s", 108, &[done, done, failed(libc::ECONNREFUSED)]),
        ConnectAction::Close
    ));
    let waiting = [done, done, failed(libc::EINPROGRESS)];
    for event in [ConnectEvent::Ready(0), ConnectEvent::Ready(-1)] {
        let timed_out = [waiting.as_slice(), &[event]].concat();
        assert!(matches!(connect("/ws/s", 108, &timed_out), ConnectAction::Close));
    }
    let refused =
        [waiting.as_slice(), &[ConnectEvent::Ready(1), ConnectEvent::Holds(libc::ECONNREFUSED)]]
            .concat();
    assert!(matches!(connect("/ws/s", 108, &refused), ConnectAction::Close));
}

#[test]
fn an_address_has_to_fit_with_its_terminator() {
    let done = ConnectEvent::Done;
    assert!(matches!(connect("abcd", 5, &[done, done]), ConnectAction::Connect(_)));
    assert!(matches!(connect("abcd", 4, &[done, done]), ConnectAction::Close));
    assert!(matches!(connect("a\0b", 108, &[]), ConnectAction::Fail));
}

#[test]
fn a_pipe_takes_content_as_it_comes() {
    let content = |data: &[u8]| VfsResponse::Content { data: data.to_vec(), total_size: 99 };
    assert_eq!(client_read_file_named_pipe(content(b"abc")), Some(b"abc".to_vec()));
    assert_eq!(client_read_range_named_pipe(content(b"bc")), Some(b"bc".to_vec()));
    assert!(client_read_file(content(b"abc")).is_err());
    assert_eq!(client_read_file_named_pipe(VfsResponse::Pong), None);
    assert_eq!(client_read_range_named_pipe(VfsResponse::Accessible(true)), None);
}

#[test]
fn a_pipe_takes_no_answer_of_another_shape() {
    assert_eq!(
        client_read_link_named_pipe(VfsResponse::LinkTarget(b"to".to_vec())),
        Some(b"to".to_vec())
    );
    assert_eq!(client_read_link_named_pipe(VfsResponse::Pong), None);
    assert_eq!(client_access_named_pipe(VfsResponse::Accessible(false)), Some(false));
    assert_eq!(client_access_named_pipe(VfsResponse::Announced), None);
    assert_eq!(client_exists_named_pipe(VfsResponse::Accessible(true)), Some(true));
    assert_eq!(client_exists_named_pipe(VfsResponse::Pong), None);
    assert!(client_stat_named_pipe(VfsResponse::Pong).is_none());
    assert!(client_read_dir_named_pipe(VfsResponse::DirEntries(vec![])).is_some());
    assert!(client_read_dir_named_pipe(VfsResponse::Pong).is_none());
    assert_eq!(client_exists(VfsResponse::Accessible(true)), Ok(true));
    assert!(client_exists(VfsResponse::Pong).is_err());
}
