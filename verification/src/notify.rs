//! Telling the daemon that a file was written.
//!
//! The write has already landed; what matters here is that the daemon is found,
//! is told in a form that it accepts, and that anything but a confirmed
//! re-index is noticed.

use vstd::prelude::*;
use vstd::string::StringExecFns;

use crate::shim;
use crate::shim::hex_char;
use crate::text;
use crate::text::{
    chars_of, contains_text, decode_lossy, find_last, find_text, next_word, parse_number, parse_trimmed,
    push_digits, string_of, sub_chars, text_at, trim, trim_non_empty,
};

verus! {

/// The daemon's host where no other is named.
pub const DEFAULT_DAEMON_HOST: &'static str = "127.0.0.1";

/// The daemon's port where no other is named.
pub const DEFAULT_DAEMON_PORT: u16 = 4219;

/// The most bytes of an answer that are read.
pub const MAX_NOTIFY_RESPONSE: usize = 2048;

// ── Where the daemon is ─────────────────────────────────────────────────

/// Whom to notify, and with which token.
#[derive(Debug)]
pub struct NotifyTarget {
    pub host: String,
    pub port: u16,
    pub token: Option<String>,
}

/// Host and port as an authority.
pub open spec fn authority_of(host: Seq<char>, port: u16) -> Seq<char> {
    host + ":"@ + text::digits(port as nat)
}

impl NotifyTarget {
    /// `host:port`, to connect to and to name in the request.
    pub fn authority(&self) -> (r: String)
        ensures
            r@ == authority_of(self.host@, self.port),
    {
        let mut out = self.host.clone();
        out.append(":");
        push_digits(&mut out, self.port as u64);
        out
    }
}

/// The port in the file that a running daemon leaves.
pub open spec fn port_in(contents: Option<Seq<char>>) -> Option<nat> {
    match contents {
        Some(text) => text::parsed(text::trimmed(text), 65535),
        None => None,
    }
}

/// The port in the file that a running daemon leaves.
pub fn read_daemon_port(contents: Option<&str>) -> (r: Option<u16>)
    ensures
        port_in(text::opt_str(contents)) == match r {
            Some(port) => Some(port as nat),
            None => None,
        },
        match contents {
            Some(text) => match r {
                Some(port) => text::parsed(text::trimmed(text@), 65535) == Some(port as nat),
                None => text::parsed(text::trimmed(text@), 65535) is None,
            },
            None => r is None,
        },
{
    match contents {
        Some(text) => match parse_trimmed(text, 65535) {
            Some(port) => Some(port as u16),
            None => None,
        },
        None => None,
    }
}

/// A URL without its scheme.
pub open spec fn without_scheme(s: Seq<char>) -> Seq<char> {
    if text::stands_at(s, "http://"@, 0) {
        s.subrange("http://"@.len() as int, s.len() as int)
    } else if text::stands_at(s, "https://"@, 0) {
        s.subrange("https://"@.len() as int, s.len() as int)
    } else {
        s
    }
}

/// What stands before the path and the query.
pub open spec fn before_path(s: Seq<char>) -> Seq<char>
    decreases s.len(),
{
    if s.len() == 0 || s[0] == '/' || s[0] == '?' {
        Seq::empty()
    } else {
        seq![s[0]] + before_path(s.drop_first())
    }
}

/// The host and the port that a URL names. Without a port it is the default
/// one, without a host before the port the default host.
pub open spec fn host_port(url: Seq<char>) -> Option<(Seq<char>, nat)> {
    let authority = before_path(without_scheme(text::trimmed(url)));
    let colon = text::last_index(authority, ':');
    if authority.len() == 0 {
        None
    } else if colon < 0 {
        Some((authority, DEFAULT_DAEMON_PORT as nat))
    } else {
        match text::parsed(authority.subrange(colon + 1, authority.len() as int), 65535) {
            Some(port) => Some(
                (
                    if colon == 0 {
                        DEFAULT_DAEMON_HOST@
                    } else {
                        authority.subrange(0, colon)
                    },
                    port,
                ),
            ),
            None => None,
        }
    }
}

/// What stands before the path and the query.
fn cut_path(s: &[char]) -> (r: Vec<char>)
    ensures
        r@ == before_path(s@),
{
    let mut end: usize = 0;
    assert(s@.subrange(0, s@.len() as int) =~= s@);
    assert(s@.subrange(0, 0) + before_path(s@) =~= before_path(s@));
    while end < s.len() && s[end] != '/' && s[end] != '?'
        invariant
            end <= s@.len(),
            before_path(s@) == s@.subrange(0, end as int) + before_path(
                s@.subrange(end as int, s@.len() as int),
            ),
        decreases s@.len() - end,
    {
        let ghost tail = s@.subrange(end as int, s@.len() as int);
        assert(tail.drop_first() =~= s@.subrange(end + 1, s@.len() as int));
        assert(s@.subrange(0, end as int) + (seq![tail[0]] + before_path(tail.drop_first()))
            =~= s@.subrange(0, end + 1) + before_path(tail.drop_first()));
        end = end + 1;
    }
    assert(before_path(s@.subrange(end as int, s@.len() as int)) =~= Seq::<char>::empty());
    assert(before_path(s@) =~= s@.subrange(0, end as int));
    sub_chars(s, 0, end)
}

/// A URL without its scheme.
fn cut_scheme(s: &[char]) -> (r: Vec<char>)
    ensures
        r@ == without_scheme(s@),
{
    let http = chars_of("http://");
    if text_at(s, http.as_slice(), 0) {
        return sub_chars(s, http.len(), s.len());
    }
    let https = chars_of("https://");
    if text_at(s, https.as_slice(), 0) {
        return sub_chars(s, https.len(), s.len());
    }
    let whole = sub_chars(s, 0, s.len());
    assert(whole@ =~= s@);
    whole
}

/// The host and the port that a URL names.
pub fn parse_host_port(url: &str) -> (r: Option<(String, u16)>)
    ensures
        match r {
            Some((host, port)) => host_port(url@) == Some((host@, port as nat)),
            None => host_port(url@) is None,
        },
{
    let all = chars_of(url);
    let kept = trim(all.as_slice());
    let rest = cut_scheme(kept.as_slice());
    let authority = cut_path(rest.as_slice());
    if authority.len() == 0 {
        return None;
    }
    match find_last(authority.as_slice(), ':') {
        None => Some((string_of(authority.as_slice()), DEFAULT_DAEMON_PORT)),
        Some(colon) => {
            let digits = sub_chars(authority.as_slice(), colon + 1, authority.len());
            let host = if colon == 0 {
                DEFAULT_DAEMON_HOST.to_owned()
            } else {
                let name = sub_chars(authority.as_slice(), 0, colon);
                string_of(name.as_slice())
            };
            match parse_number(digits.as_slice(), 65535) {
                Some(port) => Some((host, port as u16)),
                None => None,
            }
        },
    }
}

/// The daemon's host and port: what the environment names, else the port file,
/// else the default.
pub open spec fn chosen_host_port(env_url: Option<Seq<char>>, port_file: Option<u16>) -> (
    Seq<char>,
    nat,
) {
    match env_url {
        Some(url) if host_port(url) is Some => host_port(url)->0,
        _ => match port_file {
            Some(port) => (DEFAULT_DAEMON_HOST@, port as nat),
            None => (DEFAULT_DAEMON_HOST@, DEFAULT_DAEMON_PORT as nat),
        },
    }
}

/// The daemon's host and port.
pub fn resolve_host_port_from(env_url: Option<&str>, port_file: Option<u16>) -> (r: (String, u16))
    ensures
        (r.0@, r.1 as nat) == chosen_host_port(text::opt_str(env_url), port_file),
{
    match env_url {
        Some(url) => match parse_host_port(url) {
            Some((host, port)) => {
                return (host, port);
            },
            None => {},
        },
        None => {},
    }
    match port_file {
        Some(port) => (DEFAULT_DAEMON_HOST.to_owned(), port),
        None => (DEFAULT_DAEMON_HOST.to_owned(), DEFAULT_DAEMON_PORT),
    }
}

/// The token to send: what the environment holds, else the file, and never a
/// blank one.
pub open spec fn chosen_token(
    env_token: Option<Seq<char>>,
    file_token: Option<Seq<char>>,
) -> Option<Seq<char>> {
    match env_token {
        Some(t) if text::non_blank(t) is Some => text::non_blank(t),
        _ => match file_token {
            Some(t) => text::non_blank(t),
            None => None,
        },
    }
}

/// The token to send.
pub fn resolve_token_from(env_token: Option<&str>, file_token: Option<&str>) -> (r: Option<String>)
    ensures
        text::opt_text(r) == chosen_token(text::opt_str(env_token), text::opt_str(file_token)),
{
    match env_token {
        Some(t) => match trim_non_empty(t) {
            Some(token) => {
                return Some(token);
            },
            None => {},
        },
        None => {},
    }
    match file_token {
        Some(t) => trim_non_empty(t),
        None => None,
    }
}

/// Whom to notify for a repository: from the environment, and from the files
/// that its daemon leaves.
pub fn resolve_notify_target(
    env_url: Option<&str>,
    port_contents: Option<&str>,
    env_token: Option<&str>,
    token_contents: Option<&str>,
) -> (r: NotifyTarget)
    ensures
        text::opt_text(r.token) == chosen_token(
            text::opt_str(env_token),
            text::opt_str(token_contents),
        ),
        exists|port_file: Option<u16>|
            {
                &&& #[trigger] chosen_host_port(text::opt_str(env_url), port_file) == (
                    r.host@,
                    r.port as nat,
                )
                &&& match port_contents {
                    Some(text) => match port_file {
                        Some(port) => text::parsed(text::trimmed(text@), 65535) == Some(
                            port as nat,
                        ),
                        None => text::parsed(text::trimmed(text@), 65535) is None,
                    },
                    None => port_file is None,
                }
            },
{
    let port_file = read_daemon_port(port_contents);
    let (host, port) = resolve_host_port_from(env_url, port_file);
    let token = resolve_token_from(env_token, token_contents);
    NotifyTarget { host, port, token }
}

// ── The request ─────────────────────────────────────────────────────────

/// Bytes in base sixteen, two digits each.
pub open spec fn hex_text(data: Seq<u8>) -> Seq<char>
    decreases data.len(),
{
    if data.len() == 0 {
        Seq::empty()
    } else {
        hex_text(data.drop_last()).push(shim::hex_digit(data.last() as int / 16)).push(
            shim::hex_digit(data.last() as int % 16),
        )
    }
}

/// Encodes bytes in base sixteen.
pub fn hex_encode(data: &[u8]) -> (r: String)
    ensures
        r@ == hex_text(data@),
{
    let mut out = String::new();
    let mut i: usize = 0;
    while i < data.len()
        invariant
            i <= data@.len(),
            out@ == hex_text(data@.subrange(0, i as int)),
        decreases data@.len() - i,
    {
        out.push(hex_char(data[i] / 16));
        out.push(hex_char(data[i] % 16));
        assert(data@.subrange(0, i + 1).drop_last() =~= data@.subrange(0, i as int));
        assert(data@.subrange(0, i + 1).last() == data@[i as int]);
        i = i + 1;
    }
    assert(data@.subrange(0, data@.len() as int) =~= data@);
    out
}

/// A character as it stands in a JSON string.
pub open spec fn escaped_char(c: char) -> Seq<char> {
    if c == '\\' {
        seq!['\\', '\\']
    } else if c == '"' {
        seq!['\\', '"']
    } else if c == '\n' {
        seq!['\\', 'n']
    } else if c == '\r' {
        seq!['\\', 'r']
    } else if c == '\t' {
        seq!['\\', 't']
    } else {
        seq![c]
    }
}

/// A text as it stands in a JSON string.
pub open spec fn escaped(s: Seq<char>) -> Seq<char>
    decreases s.len(),
{
    if s.len() == 0 {
        Seq::empty()
    } else {
        escaped(s.drop_last()) + escaped_char(s.last())
    }
}

/// Escapes a text for a JSON string.
pub fn escape_json_string(s: &str) -> (r: String)
    ensures
        r@ == escaped(s@),
{
    let cs = chars_of(s);
    let mut out = String::new();
    let mut i: usize = 0;
    while i < cs.len()
        invariant
            i <= cs@.len(),
            cs@ == s@,
            out@ == escaped(cs@.subrange(0, i as int)),
        decreases cs@.len() - i,
    {
        let c: char = cs[i];
        let ghost before = out@;
        if c == '\\' {
            out.push('\\');
            out.push('\\');
        } else if c == '"' {
            out.push('\\');
            out.push('"');
        } else if c == '\n' {
            out.push('\\');
            out.push('n');
        } else if c == '\r' {
            out.push('\\');
            out.push('r');
        } else if c == '\t' {
            out.push('\\');
            out.push('t');
        } else {
            out.push(c);
        }
        assert(out@ =~= before + escaped_char(c));
        assert(cs@.subrange(0, i + 1).drop_last() =~= cs@.subrange(0, i as int));
        assert(cs@.subrange(0, i + 1).last() == c);
        i = i + 1;
    }
    assert(cs@.subrange(0, cs@.len() as int) =~= cs@);
    out
}

/// The body: the exact bytes of the path, and the session where there is one.
pub open spec fn notify_body(path: Seq<u8>, session_id: Option<Seq<char>>) -> Seq<char> {
    match session_id {
        Some(session) => "{\"path\":{\"bytes_hex\":\""@ + hex_text(path)
            + "\"},\"session_id\":\""@ + escaped(session) + "\"}"@,
        None => "{\"path\":{\"bytes_hex\":\""@ + hex_text(path) + "\"}}"@,
    }
}

/// The header that carries the token, where there is one.
pub open spec fn auth_header(token: Option<Seq<char>>) -> Seq<char> {
    match token {
        Some(t) => "Authorization: Bearer "@ + t + "\r\n"@,
        None => Seq::empty(),
    }
}

/// The whole request.
pub open spec fn notify_request(
    body: Seq<char>,
    host: Seq<char>,
    port: u16,
    token: Option<Seq<char>>,
) -> Seq<char> {
    "POST /vfs/write-notify HTTP/1.1\r\nHost: "@ + authority_of(host, port) + "\r\n"@
        + auth_header(token) + "Content-Type: application/json\r\nContent-Length: "@
        + text::digits(vstd::utf8::encode_utf8(body).len())
        + "\r\nConnection: close\r\n\r\n"@ + body
}

/// Builds the body.
fn build_body(path: &[u8], session_id: Option<&str>) -> (r: String)
    ensures
        r@ == notify_body(path@, text::opt_str(session_id)),
{
    let mut body = "{\"path\":{\"bytes_hex\":\"".to_owned();
    body.append(hex_encode(path).as_str());
    match session_id {
        Some(session) => {
            body.append("\"},\"session_id\":\"");
            body.append(escape_json_string(session).as_str());
            body.append("\"}");
        },
        None => {
            body.append("\"}}");
        },
    }
    body
}

/// Builds the request that announces a write of `path`. A token is sent only
/// where there is one: an empty one would be refused.
pub fn build_notify_request(path: &[u8], target: &NotifyTarget, session_id: Option<&str>) -> (r:
    String)
    ensures
        r@ == notify_request(
            notify_body(path@, text::opt_str(session_id)),
            target.host@,
            target.port,
            text::opt_text(target.token),
        ),
{
    let body = build_body(path, session_id);
    let mut out = "POST /vfs/write-notify HTTP/1.1\r\nHost: ".to_owned();
    out.append(target.authority().as_str());
    out.append("\r\n");
    match &target.token {
        Some(token) => {
            out.append("Authorization: Bearer ");
            out.append(token.as_str());
            out.append("\r\n");
        },
        None => {},
    }
    out.append("Content-Type: application/json\r\nContent-Length: ");
    push_digits(&mut out, body.as_str().as_bytes().len() as u64);
    out.append("\r\nConnection: close\r\n\r\n");
    out.append(body.as_str());
    assert(out@ =~= notify_request(
        notify_body(path@, text::opt_str(session_id)),
        target.host@,
        target.port,
        text::opt_text(target.token),
    ));
    out
}

// ── The answer ──────────────────────────────────────────────────────────

/// What the daemon's answer amounts to.
#[derive(Debug, Clone, Copy, PartialEq, Eq, Structural)]
pub enum NotifyResponse {
    /// A 200 that says the write was re-indexed.
    Acked,
    /// Another 2xx, or a 200 that says nothing of the kind.
    NotReindexed,
    /// The daemon refused, with this status.
    Rejected(u16),
    /// The answer has no status.
    Unparsable,
}

/// How one attempt went.
#[derive(Debug, Clone, Copy, PartialEq, Eq, Structural)]
pub enum NotifyAttempt {
    /// An answer came.
    Responded(NotifyResponse),
    /// There was no connection.
    Unreachable,
    /// The exchange broke off.
    Transient,
}

/// The first line of a text.
pub open spec fn first_line(s: Seq<char>) -> Seq<char> {
    s.subrange(0, text::first_at(s, "\n"@, 0))
}

/// The second word of a text; empty where there is none.
pub open spec fn second_word(s: Seq<char>) -> Seq<char> {
    text::word(text::start_trimmed(text::after_word(text::start_trimmed(s))))
}

/// What stands between the first blank line and the next; empty where there is
/// none.
pub open spec fn body_of(s: Seq<char>) -> Seq<char> {
    let cut = text::first_at(s, "\r\n\r\n"@, 0);
    if cut >= s.len() {
        Seq::empty()
    } else {
        let rest = s.subrange(cut + 4, s.len() as int);
        rest.subrange(0, text::first_at(rest, "\r\n\r\n"@, 0))
    }
}

/// A text without its spaces.
pub open spec fn without_spaces(s: Seq<char>) -> Seq<char>
    decreases s.len(),
{
    if s.len() == 0 {
        Seq::empty()
    } else if s.last() == ' ' {
        without_spaces(s.drop_last())
    } else {
        without_spaces(s.drop_last()).push(s.last())
    }
}

/// What an answer amounts to: a status outside 200..300 is a refusal, and only
/// a 200 that confirms the re-index is success.
pub open spec fn classified(s: Seq<char>) -> NotifyResponse {
    match text::parsed(second_word(first_line(s)), 65535) {
        None => NotifyResponse::Unparsable,
        Some(code) => if code < 200 || code >= 300 {
            NotifyResponse::Rejected(code as u16)
        } else if code == 200 && text::mentions(
            without_spaces(body_of(s)),
            "\"reindexed\":true"@,
        ) {
            NotifyResponse::Acked
        } else {
            NotifyResponse::NotReindexed
        },
    }
}

/// A text without its spaces.
fn drop_spaces(s: &[char]) -> (r: Vec<char>)
    ensures
        r@ == without_spaces(s@),
{
    let mut out: Vec<char> = Vec::new();
    let mut i: usize = 0;
    while i < s.len()
        invariant
            i <= s@.len(),
            out@ == without_spaces(s@.subrange(0, i as int)),
        decreases s@.len() - i,
    {
        assert(s@.subrange(0, i + 1).drop_last() =~= s@.subrange(0, i as int));
        assert(s@.subrange(0, i + 1).last() == s@[i as int]);
        if s[i] != ' ' {
            out.push(s[i]);
        }
        i = i + 1;
    }
    assert(s@.subrange(0, s@.len() as int) =~= s@);
    out
}

/// What stands between the first blank line and the next.
fn find_body(s: &[char]) -> (r: Vec<char>)
    ensures
        r@ == body_of(s@),
{
    let blank = chars_of("\r\n\r\n");
    proof {
        reveal_strlit("\r\n\r\n");
        assert(blank@.len() == 4);
    }
    let cut: usize = find_text(s, blank.as_slice(), 0);
    proof {
        text::lemma_first_at(s@, blank@, 0, cut as int);
    }
    if cut >= s.len() {
        let none: Vec<char> = Vec::new();
        assert(none@ =~= Seq::<char>::empty());
        return none;
    }
    let rest = sub_chars(s, cut + 4, s.len());
    let end: usize = find_text(rest.as_slice(), blank.as_slice(), 0);
    proof {
        text::lemma_first_at(rest@, blank@, 0, end as int);
    }
    sub_chars(rest.as_slice(), 0, end)
}

/// Classifies the text of an answer.
pub fn classify_notify_response(answer: &str) -> (r: NotifyResponse)
    ensures
        r == classified(answer@),
{
    let all = chars_of(answer);
    let newline = chars_of("\n");
    proof {
        reveal_strlit("\n");
        assert(newline@.len() == 1);
    }
    let end: usize = find_text(all.as_slice(), newline.as_slice(), 0);
    proof {
        text::lemma_first_at(all@, newline@, 0, end as int);
    }
    let line = sub_chars(all.as_slice(), 0, end);
    let (_, rest) = next_word(line.as_slice());
    let (status, _) = next_word(rest.as_slice());
    let code: u64 = match parse_number(status.as_slice(), 65535) {
        Some(code) => code,
        None => {
            return NotifyResponse::Unparsable;
        },
    };
    if code < 200 || code >= 300 {
        return NotifyResponse::Rejected(code as u16);
    }
    if code != 200 {
        return NotifyResponse::NotReindexed;
    }
    let body = find_body(all.as_slice());
    let compact = drop_spaces(body.as_slice());
    let confirmation = chars_of("\"reindexed\":true");
    proof {
        reveal_strlit("\"reindexed\":true");
        assert(confirmation@.len() == 16);
    }
    if contains_text(compact.as_slice(), confirmation.as_slice()) {
        NotifyResponse::Acked
    } else {
        NotifyResponse::NotReindexed
    }
}

/// Classifies a raw answer.
pub fn parse_notify_response(raw: &[u8]) -> (r: NotifyResponse)
    ensures
        r == classified(text::lossy_text(raw@)),
        vstd::utf8::valid_utf8(raw@) ==> r == classified(vstd::utf8::decode_utf8(raw@)),
{
    let answer = decode_lossy(raw);
    classify_notify_response(answer.as_str())
}

/// How an attempt went.
pub open spec fn attempted(connected: bool, written: bool, raw: Seq<u8>) -> NotifyAttempt {
    if !connected {
        NotifyAttempt::Unreachable
    } else if !written || raw.len() == 0 {
        NotifyAttempt::Transient
    } else {
        NotifyAttempt::Responded(classified(text::lossy_text(raw)))
    }
}

/// How an attempt went: whether a connection was made, whether the request was
/// written over it, and what was read before the end.
pub fn attempt_notify(connected: bool, written: bool, raw: &[u8]) -> (r: NotifyAttempt)
    ensures
        r == attempted(connected, written, raw@),
        r == if !connected {
            NotifyAttempt::Unreachable
        } else if !written || raw@.len() == 0 {
            NotifyAttempt::Transient
        } else {
            NotifyAttempt::Responded(classified(text::lossy_text(raw@)))
        },
        connected && written && raw@.len() > 0 && vstd::utf8::valid_utf8(raw@) ==> r
            == NotifyAttempt::Responded(classified(vstd::utf8::decode_utf8(raw@))),
{
    if !connected {
        NotifyAttempt::Unreachable
    } else if !written || raw.len() == 0 {
        NotifyAttempt::Transient
    } else {
        NotifyAttempt::Responded(parse_notify_response(raw))
    }
}

/// Whether an attempt is worth one more: the exchange broke off, or the daemon
/// failed in itself. A refusal stays one.
pub open spec fn retryable(attempt: NotifyAttempt) -> bool {
    match attempt {
        NotifyAttempt::Transient => true,
        NotifyAttempt::Responded(NotifyResponse::Rejected(code)) => 500 <= code < 600,
        _ => false,
    }
}

/// Whether an attempt is worth one more.
pub fn notify_is_retryable(attempt: NotifyAttempt) -> (r: bool)
    ensures
        r == retryable(attempt),
{
    match attempt {
        NotifyAttempt::Transient => true,
        NotifyAttempt::Responded(NotifyResponse::Rejected(code)) => 500 <= code && code < 600,
        _ => false,
    }
}

/// What is said of a finished notification.
#[derive(Debug, Clone, Copy, PartialEq, Eq, Structural)]
pub enum NotifyVerdict {
    /// Nothing: it was confirmed.
    Confirmed,
    /// That the daemon could not be reached.
    Unreachable,
    /// That the daemon did not confirm it.
    Unconfirmed,
}

/// What is said of the last attempt of a notification.
pub open spec fn verdict_on(attempt: NotifyAttempt) -> NotifyVerdict {
    match attempt {
        NotifyAttempt::Responded(NotifyResponse::Acked) => NotifyVerdict::Confirmed,
        NotifyAttempt::Unreachable => NotifyVerdict::Unreachable,
        _ => NotifyVerdict::Unconfirmed,
    }
}

/// What is said of the last attempt of a notification.
pub fn notify_verdict(attempt: NotifyAttempt) -> (r: NotifyVerdict)
    ensures
        r == verdict_on(attempt),
{
    match attempt {
        NotifyAttempt::Responded(NotifyResponse::Acked) => NotifyVerdict::Confirmed,
        NotifyAttempt::Unreachable => NotifyVerdict::Unreachable,
        _ => NotifyVerdict::Unconfirmed,
    }
}

/// How a notification goes on after an attempt.
#[derive(Debug, Clone, Copy, PartialEq, Eq, Structural)]
pub enum NotifyStep {
    /// It is tried once more.
    Retry,
    /// It is over, with this to be said of it.
    Done(NotifyVerdict),
}

/// How a notification goes on after an attempt.
pub open spec fn step_after(retried: bool, attempt: NotifyAttempt) -> NotifyStep {
    if !retried && retryable(attempt) {
        NotifyStep::Retry
    } else {
        NotifyStep::Done(verdict_on(attempt))
    }
}

/// Goes on after an attempt; `retried` tells the second one from the first.
pub fn notify_write_sync(retried: bool, attempt: NotifyAttempt) -> (r: NotifyStep)
    ensures
        r == step_after(retried, attempt),
        r == if !retried && retryable(attempt) {
            NotifyStep::Retry
        } else {
            NotifyStep::Done(verdict_on(attempt))
        },
{
    if !retried && notify_is_retryable(attempt) {
        NotifyStep::Retry
    } else {
        NotifyStep::Done(notify_verdict(attempt))
    }
}

/// Which warnings about notifications have been printed. Each is printed once.
#[derive(Debug, Clone, Copy, PartialEq, Eq, Structural)]
pub struct NotifyWarnings {
    /// That the daemon could not be reached.
    pub unreachable: bool,
    /// That the daemon did not confirm a notification.
    pub unconfirmed: bool,
}

/// The warnings that were printed after a verdict, and whether one is due now.
pub open spec fn warning(printed: NotifyWarnings, verdict: NotifyVerdict) -> (NotifyWarnings, bool) {
    match verdict {
        NotifyVerdict::Confirmed => (printed, false),
        NotifyVerdict::Unreachable => (
            NotifyWarnings { unreachable: true, unconfirmed: printed.unconfirmed },
            !printed.unreachable,
        ),
        NotifyVerdict::Unconfirmed => (
            NotifyWarnings { unreachable: printed.unreachable, unconfirmed: true },
            !printed.unconfirmed,
        ),
    }
}

impl NotifyWarnings {
    /// Nothing printed yet.
    pub fn new() -> (r: NotifyWarnings)
        ensures
            r == (NotifyWarnings { unreachable: false, unconfirmed: false }),
    {
        NotifyWarnings { unreachable: false, unconfirmed: false }
    }

    /// Whether a warning about this verdict is due now.
    pub fn due(&mut self, verdict: NotifyVerdict) -> (r: bool)
        ensures
            (*final(self), r) == warning(*old(self), verdict),
            r == match verdict {
                NotifyVerdict::Confirmed => false,
                NotifyVerdict::Unreachable => !old(self).unreachable,
                NotifyVerdict::Unconfirmed => !old(self).unconfirmed,
            },
            final(self).unreachable == (old(self).unreachable || verdict is Unreachable),
            final(self).unconfirmed == (old(self).unconfirmed || verdict is Unconfirmed),
    {
        match verdict {
            NotifyVerdict::Confirmed => false,
            NotifyVerdict::Unreachable => {
                let due = !self.unreachable;
                self.unreachable = true;
                due
            },
            NotifyVerdict::Unconfirmed => {
                let due = !self.unconfirmed;
                self.unconfirmed = true;
                due
            },
        }
    }
}

// ── Laws ────────────────────────────────────────────────────────────────

/// Distinct paths are announced as distinct: their encodings differ.
pub proof fn law_paths_are_announced_losslessly(a: Seq<u8>, b: Seq<u8>)
    requires
        hex_text(a) == hex_text(b),
    ensures
        a == b,
    decreases a.len(),
{
    lemma_hex_len(a);
    lemma_hex_len(b);
    assert(a.len() == b.len());
    if a.len() > 0 {
        let ha = hex_text(a);
        let hb = hex_text(b);
        let n = ha.len();
        assert(ha.drop_last().drop_last() =~= hex_text(a.drop_last()));
        assert(hb.drop_last().drop_last() =~= hex_text(b.drop_last()));
        assert(ha[n - 1] == shim::hex_digit(a.last() as int % 16));
        assert(hb[n - 1] == shim::hex_digit(b.last() as int % 16));
        assert(ha[n - 2] == shim::hex_digit(a.last() as int / 16));
        assert(hb[n - 2] == shim::hex_digit(b.last() as int / 16));
        lemma_hex_digit(a.last() as int % 16, b.last() as int % 16);
        lemma_hex_digit(a.last() as int / 16, b.last() as int / 16);
        law_paths_are_announced_losslessly(a.drop_last(), b.drop_last());
        assert(a =~= a.drop_last().push(a.last()));
        assert(b =~= b.drop_last().push(b.last()));
    }
}

proof fn lemma_hex_len(data: Seq<u8>)
    ensures
        hex_text(data).len() == 2 * data.len(),
    decreases data.len(),
{
    if data.len() > 0 {
        lemma_hex_len(data.drop_last());
    }
}

proof fn lemma_hex_digit(x: int, y: int)
    requires
        0 <= x < 16,
        0 <= y < 16,
        shim::hex_digit(x) == shim::hex_digit(y),
    ensures
        x == y,
{
    assert(shim::hex_digit(x) as int == if x < 10 {
        0x30 + x
    } else {
        0x61 + x - 10
    });
    assert(shim::hex_digit(y) as int == if y < 10 {
        0x30 + y
    } else {
        0x61 + y - 10
    });
}

/// No blank token is ever sent, and no surrounding white space with one.
pub proof fn law_no_blank_token_is_sent(env: Option<Seq<char>>, file: Option<Seq<char>>)
    ensures
        chosen_token(env, file) matches Some(token) ==> token.len() > 0 && token == text::trimmed(
            token,
        ) && !text::white_space(token[0]) && !text::white_space(token.last()),
{
    match env {
        Some(t) => text::lemma_trimmed(t),
        None => {},
    }
    match file {
        Some(t) => text::lemma_trimmed(t),
        None => {},
    }
}

/// Only an answer of 200 that confirms the re-index counts as success, and it
/// does; whatever is worth another attempt is no success.
pub proof fn law_only_a_confirmation_is_success(answer: Seq<char>, attempt: NotifyAttempt)
    ensures
        classified(answer) == NotifyResponse::Acked <==> {
            &&& text::parsed(second_word(first_line(answer)), 65535) == Some(200nat)
            &&& text::mentions(without_spaces(body_of(answer)), "\"reindexed\":true"@)
        },
        verdict_on(attempt) is Confirmed <==> attempt == NotifyAttempt::Responded(
            NotifyResponse::Acked,
        ),
        retryable(attempt) ==> !(verdict_on(attempt) is Confirmed),
{
}

/// Every byte of an announced path stands for itself, in order, as two digits of
/// base sixteen, the greater one first.
pub proof fn law_a_path_is_announced_byte_by_byte(data: Seq<u8>, i: int)
    requires
        0 <= i < data.len(),
    ensures
        hex_text(data).len() == 2 * data.len(),
        sixteenth(hex_text(data)[2 * i]) == data[i] / 16,
        sixteenth(hex_text(data)[2 * i + 1]) == data[i] % 16,
        forall|k: int|
            0 <= k < hex_text(data).len() ==> ('0' <= #[trigger] hex_text(data)[k] && hex_text(
                data,
            )[k] <= '9') || ('a' <= hex_text(data)[k] && hex_text(data)[k] <= 'f'),
    decreases data.len(),
{
    lemma_hex_len(data);
    let front = data.drop_last();
    lemma_hex_len(front);
    if front.len() > 0 {
        law_a_path_is_announced_byte_by_byte(
            front,
            if i < front.len() {
                i
            } else {
                0
            },
        );
    }
}

/// The value of a digit of base sixteen.
pub open spec fn sixteenth(c: char) -> int {
    if '0' <= c && c <= '9' {
        c as int - '0' as int
    } else {
        c as int - 'a' as int + 10
    }
}

/// What a reader of a JSON string makes of its text.
pub open spec fn unescaped(s: Seq<char>) -> Seq<char>
    decreases s.len(),
{
    if s.len() == 0 {
        Seq::empty()
    } else if s[0] == '\\' && s.len() > 1 {
        seq![
            if s[1] == 'n' {
                '\n'
            } else if s[1] == 'r' {
                '\r'
            } else if s[1] == 't' {
                '\t'
            } else {
                s[1]
            },
        ] + unescaped(s.drop_first().drop_first())
    } else {
        seq![s[0]] + unescaped(s.drop_first())
    }
}

/// A text is read back from its JSON string, and no quotation mark and no line
/// end stands in the string but behind a backslash or as a letter.
pub proof fn law_a_json_string_is_read_back(s: Seq<char>, i: int)
    ensures
        unescaped(escaped(s)) == s,
        !escaped(s).contains('\n') && !escaped(s).contains('\r') && !escaped(s).contains('\t'),
        0 <= i < escaped(s).len() && escaped(s)[i] == '"' ==> i > 0 && escaped(s)[i - 1] == '\\',
{
    lemma_unescaped(s, Seq::empty());
    assert(escaped(s) + Seq::<char>::empty() =~= escaped(s));
    assert(unescaped(Seq::<char>::empty()) =~= Seq::<char>::empty());
    assert(s + Seq::<char>::empty() =~= s);
    lemma_escaped_chars(s, i);
}

proof fn lemma_unescaped(s: Seq<char>, rest: Seq<char>)
    ensures
        unescaped(escaped(s) + rest) == s + unescaped(rest),
    decreases s.len(),
{
    if s.len() == 0 {
        assert(escaped(s) + rest =~= rest);
        assert(s + unescaped(rest) =~= unescaped(rest));
    } else {
        let c = s.last();
        let front = s.drop_last();
        let tail = escaped_char(c) + rest;
        assert(escaped(s) + rest =~= escaped(front) + tail);
        lemma_unescaped(front, tail);
        if escaped_char(c).len() == 2 {
            assert(tail.drop_first().drop_first() =~= rest);
        } else {
            assert(tail.drop_first() =~= rest);
        }
        assert(unescaped(tail) =~= seq![c] + unescaped(rest));
        assert(front + (seq![c] + unescaped(rest)) =~= s + unescaped(rest));
    }
}

proof fn lemma_escaped_chars(s: Seq<char>, i: int)
    ensures
        forall|k: int|
            0 <= k < escaped(s).len() ==> #[trigger] escaped(s)[k] != '\n' && escaped(s)[k] != '\r'
                && escaped(s)[k] != '\t',
        0 <= i < escaped(s).len() && escaped(s)[i] == '"' ==> i > 0 && escaped(s)[i - 1] == '\\',
    decreases s.len(),
{
    if s.len() > 0 {
        let front = escaped(s.drop_last());
        lemma_escaped_chars(s.drop_last(), i);
        assert forall|k: int| 0 <= k < escaped(s).len() implies #[trigger] escaped(s)[k] != '\n'
            && escaped(s)[k] != '\r' && escaped(s)[k] != '\t' by {
            if k < front.len() {
                assert(escaped(s)[k] == front[k]);
            } else {
                assert(escaped(s)[k] == escaped_char(s.last())[k - front.len()]);
            }
        }
    }
}

/// A request is one complete message to the daemon's own address: the line that
/// names what is asked for, the host and the port, the token where there is one
/// and no such header where there is none, the length of the body in bytes, and
/// then the body, which holds the path and the session.
pub proof fn law_a_request_is_a_complete_message(
    path: Seq<u8>,
    session: Option<Seq<char>>,
    host: Seq<char>,
    port: u16,
    token: Seq<char>,
)
    ensures
        ({
            let body = notify_body(path, session);
            let start = "POST /vfs/write-notify HTTP/1.1\r\nHost: "@ + host + ":"@ + text::digits(
                port as nat,
            ) + "\r\n"@;
            let end = "Content-Type: application/json\r\nContent-Length: "@ + text::digits(
                vstd::utf8::encode_utf8(body).len(),
            ) + "\r\nConnection: close\r\n\r\n"@ + body;
            &&& notify_request(body, host, port, Some(token)) == start + "Authorization: Bearer "@
                + token + "\r\n"@ + end
            &&& notify_request(body, host, port, None) == start + end
            &&& session is None ==> body == "{\"path\":{\"bytes_hex\":\""@ + hex_text(path)
                + "\"}}"@
            &&& session matches Some(id) ==> body == "{\"path\":{\"bytes_hex\":\""@ + hex_text(path)
                + "\"},\"session_id\":\""@ + escaped(id) + "\"}"@
        }),
{
    let body = notify_body(path, session);
    let start = "POST /vfs/write-notify HTTP/1.1\r\nHost: "@ + host + ":"@ + text::digits(
        port as nat,
    ) + "\r\n"@;
    let end = "Content-Type: application/json\r\nContent-Length: "@ + text::digits(
        vstd::utf8::encode_utf8(body).len(),
    ) + "\r\nConnection: close\r\n\r\n"@ + body;
    assert(notify_request(body, host, port, Some(token)) =~= start + "Authorization: Bearer "@
        + token + "\r\n"@ + end);
    assert(notify_request(body, host, port, None) =~= start + end);
}

proof fn lemma_before_path(authority: Seq<char>, tail: Seq<char>)
    requires
        forall|i: int|
            0 <= i < authority.len() ==> #[trigger] authority[i] != '/' && authority[i] != '?',
        tail.len() > 0 ==> tail[0] == '/' || tail[0] == '?',
    ensures
        before_path(authority + tail) == authority,
    decreases authority.len(),
{
    if authority.len() == 0 {
        assert(authority + tail =~= tail);
    } else {
        assert((authority + tail).drop_first() =~= authority.drop_first() + tail);
        assert forall|i: int| 0 <= i < authority.drop_first().len() implies
            #[trigger] authority.drop_first()[i] != '/' && authority.drop_first()[i] != '?' by {
            assert(authority[i + 1] != '/');
        }
        lemma_before_path(authority.drop_first(), tail);
        assert(seq![authority[0]] + authority.drop_first() =~= authority);
    }
}

/// A URL names the host before its colon and the port behind it, whether a
/// scheme stands before them or not, and whatever path or query follows. Without
/// a port it is the default one. What the environment names counts before the
/// port file, and the port file before the default.
pub proof fn law_a_url_names_its_host_and_port(
    scheme: Seq<char>,
    host: Seq<char>,
    port: nat,
    tail: Seq<char>,
    port_file: Option<u16>,
)
    requires
        scheme == "http://"@ || scheme == "https://"@,
        host.len() > 0,
        forall|i: int|
            0 <= i < host.len() ==> #[trigger] host[i] != '/' && host[i] != '?' && host[i] != ':'
                && !text::white_space(host[i]),
        port <= 65535,
        tail.len() > 0 ==> (tail[0] == '/' || tail[0] == '?') && !text::white_space(tail.last()),
    ensures
        host_port(scheme + host + seq![':'] + text::digits(port) + tail) == Some((host, port)),
        host_port(scheme + host + tail) == Some((host, 4219nat)),
        chosen_host_port(
            Some(scheme + host + seq![':'] + text::digits(port) + tail),
            port_file,
        ) == (host, port),
        chosen_host_port(None, port_file) == ("127.0.0.1"@, match port_file {
            Some(p) => p as nat,
            None => 4219nat,
        }),
{
    text::law_rendered_numbers_are_digits(port);
    let ds = text::digits(port);
    let authority = host + seq![':'] + ds;
    assert(scheme + host + seq![':'] + ds + tail =~= scheme + authority + tail);
    assert(text::is_digit(ds[ds.len() - 1]));
    assert forall|i: int| 0 <= i < authority.len() implies #[trigger] authority[i] != '/'
        && authority[i] != '?' by {
        if i < host.len() {
            assert(authority[i] == host[i]);
        } else if i > host.len() {
            assert(text::is_digit(ds[i - host.len() - 1]));
        }
    }
    lemma_authority(scheme, authority, tail);
    assert forall|i: int| host.len() < i < authority.len() implies authority[i] != ':' by {
        assert(text::is_digit(ds[i - host.len() - 1]));
    }
    text::lemma_last_index_is(authority, ':', host.len() as int);
    assert(authority.subrange(host.len() as int + 1, authority.len() as int) =~= ds);
    assert(authority.subrange(0, host.len() as int) =~= host);
    text::law_rendered_numbers_parse_back(port, 65535);
    assert(!text::white_space(host[host.len() - 1]));
    lemma_authority(scheme, host, tail);
    text::lemma_last_index_is(host, ':', -1);
}

proof fn lemma_authority(scheme: Seq<char>, authority: Seq<char>, tail: Seq<char>)
    requires
        scheme == "http://"@ || scheme == "https://"@,
        authority.len() > 0,
        !text::white_space(authority.last()),
        forall|i: int|
            0 <= i < authority.len() ==> #[trigger] authority[i] != '/' && authority[i] != '?',
        tail.len() > 0 ==> (tail[0] == '/' || tail[0] == '?') && !text::white_space(tail.last()),
    ensures
        before_path(without_scheme(text::trimmed(scheme + authority + tail))) == authority,
{
    let url = scheme + authority + tail;
    assert(url[0] == 'h') by {
        reveal_strlit("http://");
        reveal_strlit("https://");
        assert(url[0] == scheme[0]);
    }
    assert(!text::white_space(url.last())) by {
        if tail.len() == 0 {
            assert(url.last() == authority.last());
        } else {
            assert(url.last() == tail.last());
        }
    }
    text::law_only_surrounding_white_space_is_trimmed(Seq::empty(), url, Seq::empty());
    assert(url =~= scheme + (authority + tail));
    lemma_scheme(scheme, authority + tail);
    lemma_before_path(authority, tail);
}

proof fn lemma_scheme(scheme: Seq<char>, rest: Seq<char>)
    requires
        scheme == "http://"@ || scheme == "https://"@,
    ensures
        without_scheme(scheme + rest) == rest,
{
    reveal_strlit("http://");
    reveal_strlit("https://");
    let s = scheme + rest;
    assert(s.subrange(0, scheme.len() as int) =~= scheme);
    assert(s.subrange(scheme.len() as int, s.len() as int) =~= rest);
    if scheme == "https://"@ {
        assert(s[4] == 's');
        if text::stands_at(s, "http://"@, 0) {
            assert(s.subrange(0, 7)[4] == "http://"@[4]);
        }
    }
}

/// The status of an answer is the number in its first line, whatever follows: a
/// number outside 200 to 299 refuses with that number, and within it only 200
/// can confirm.
pub proof fn law_the_status_line_decides(
    version: Seq<char>,
    code: u16,
    reason: Seq<char>,
    rest: Seq<char>,
)
    requires
        version.len() > 0,
        forall|i: int| 0 <= i < version.len() ==> !text::white_space(#[trigger] version[i]),
        !reason.contains('\n'),
    ensures
        ({
            let answer = version + seq![' '] + text::digits(code as nat) + seq![' '] + reason
                + seq!['\n'] + rest;
            &&& code < 200 || code >= 300 ==> classified(answer) == NotifyResponse::Rejected(code)
            &&& 200 < code < 300 ==> classified(answer) == NotifyResponse::NotReindexed
            &&& code == 200 ==> classified(answer) == NotifyResponse::Acked || classified(answer)
                == NotifyResponse::NotReindexed
        }),
{
    reveal_strlit("\n");
    let ds = text::digits(code as nat);
    text::law_rendered_numbers_are_digits(code as nat);
    let line = version + seq![' '] + ds + seq![' '] + reason;
    let answer = line + seq!['\n'] + rest;
    assert(answer =~= version + seq![' '] + ds + seq![' '] + reason + seq!['\n'] + rest);
    let end = line.len() as int;
    assert(answer.subrange(end, end + 1) =~= "\n"@);
    assert forall|at: int| 0 <= at < end implies !text::stands_at(answer, "\n"@, at) by {
        assert(answer.subrange(at, at + 1)[0] == line[at]);
        if at < version.len() {
            assert(line[at] == version[at]);
        } else if version.len() < at < version.len() + 1 + ds.len() {
            assert(line[at] == ds[at - version.len() - 1]);
        } else if at > version.len() + 1 + ds.len() {
            assert(line[at] == reason[at - version.len() - 2 - ds.len()]);
        }
        assert(line[at] != '\n');
    }
    text::lemma_first_at(answer, "\n"@, 0, end);
    assert(answer.subrange(0, end) =~= line);
    let behind = seq![' '] + ds + seq![' '] + reason;
    assert(line =~= version + behind);
    assert(!text::white_space(version[0]));
    text::law_a_word_ends_at_white_space(version, behind);
    text::lemma_after_word(line);
    assert(text::start_trimmed(line) == line);
    let more = ds + (seq![' '] + reason);
    assert(behind.drop_first() =~= more);
    assert(text::is_digit(ds[0]));
    assert(!text::white_space(more[0]));
    assert(text::start_trimmed(more) == more);
    assert(text::start_trimmed(behind) == more);
    text::law_a_word_ends_at_white_space(ds, seq![' '] + reason);
    text::law_rendered_numbers_parse_back(code as nat, 65535);
}

/// The body of an answer is what stands behind its headers, up to the next blank
/// line; an answer without a blank line has none.
pub proof fn law_the_body_stands_behind_the_headers(head: Seq<char>, body: Seq<char>)
    requires
        head.len() > 0,
        head.last() != '\r' && head.last() != '\n',
        !text::mentions(head, "\r\n\r\n"@),
        !text::mentions(body, "\r\n\r\n"@),
    ensures
        body_of(head + "\r\n\r\n"@ + body) == body,
        body_of(head) == Seq::<char>::empty(),
{
    reveal_strlit("\r\n\r\n");
    let sep = "\r\n\r\n"@;
    let answer = head + sep + body;
    let cut = head.len() as int;
    assert(answer.subrange(cut, cut + 4) =~= sep);
    assert forall|at: int| 0 <= at < cut implies !text::stands_at(answer, sep, at) by {
        if text::stands_at(answer, sep, at) {
            if at + 4 <= cut {
                assert(head.subrange(at, at + 4) =~= answer.subrange(at, at + 4));
                assert(text::stands_at(head, sep, at));
            } else {
                assert(answer.subrange(at, at + 4)[cut - 1 - at] == head.last());
                assert(sep[cut - 1 - at] == '\r' || sep[cut - 1 - at] == '\n');
            }
        }
    }
    text::lemma_first_at(answer, sep, 0, cut);
    assert(answer.subrange(cut + 4, answer.len() as int) =~= body);
    text::lemma_first_at(body, sep, 0, body.len() as int);
    assert(body.subrange(0, body.len() as int) =~= body);
    text::lemma_first_at(head, sep, 0, head.len() as int);
}

/// A notification is tried at most twice, and the second time only where the
/// first broke off or the daemon failed in itself; what is then said of it is
/// what the last attempt came to.
pub proof fn law_a_notification_is_tried_at_most_twice(
    first: NotifyAttempt,
    second: NotifyAttempt,
    code: u16,
)
    ensures
        step_after(false, first) == NotifyStep::Retry <==> first == NotifyAttempt::Transient || (
        first matches NotifyAttempt::Responded(NotifyResponse::Rejected(status)) && 500 <= status
            <= 599),
        step_after(false, first) != NotifyStep::Retry ==> step_after(false, first)
            == NotifyStep::Done(verdict_on(first)),
        step_after(true, second) == NotifyStep::Done(verdict_on(second)),
        verdict_on(NotifyAttempt::Unreachable) == NotifyVerdict::Unreachable,
        verdict_on(NotifyAttempt::Transient) == NotifyVerdict::Unconfirmed,
        verdict_on(NotifyAttempt::Responded(NotifyResponse::Rejected(code)))
            == NotifyVerdict::Unconfirmed,
        verdict_on(NotifyAttempt::Responded(NotifyResponse::NotReindexed))
            == NotifyVerdict::Unconfirmed,
        verdict_on(NotifyAttempt::Responded(NotifyResponse::Unparsable))
            == NotifyVerdict::Unconfirmed,
{
}

/// How an attempt went is told by its first step that failed: no connection is
/// unreachable, a request that was not written or an answer without a byte broke
/// off, and anything else is what the answer says.
pub proof fn law_an_attempt_is_told_by_its_first_failure(
    connected: bool,
    written: bool,
    raw: Seq<u8>,
)
    ensures
        attempted(connected, written, raw) is Unreachable <==> !connected,
        attempted(connected, written, raw) is Transient <==> connected && (!written || raw.len()
            == 0),
        connected && written && raw.len() > 0 ==> attempted(connected, written, raw)
            == NotifyAttempt::Responded(classified(text::lossy_text(raw))),
{
}

/// Each warning is printed once, and a confirmed notification warns of nothing.
pub proof fn law_each_warning_is_printed_once(
    printed: NotifyWarnings,
    verdict: NotifyVerdict,
)
    ensures
        ({
            let (after, due) = warning(printed, verdict);
            &&& verdict == NotifyVerdict::Confirmed ==> !due && after == printed
            &&& verdict == NotifyVerdict::Unreachable ==> due == !printed.unreachable
                && after.unreachable && after.unconfirmed == printed.unconfirmed
            &&& verdict == NotifyVerdict::Unconfirmed ==> due == !printed.unconfirmed
                && after.unconfirmed && after.unreachable == printed.unreachable
            &&& !warning(after, verdict).1
        }),
{
}

/// The port in the daemon's file is read back, white space around it or not.
pub proof fn law_the_port_file_is_read_back(port: u16, blank: Seq<char>)
    requires
        forall|i: int| 0 <= i < blank.len() ==> text::white_space(#[trigger] blank[i]),
    ensures
        port_in(Some(blank + text::digits(port as nat) + blank)) == Some(port as nat),
        port_in(Some(text::digits(port as nat))) == Some(port as nat),
        port_in(None) is None,
{
    let ds = text::digits(port as nat);
    text::law_rendered_numbers_are_digits(port as nat);
    text::law_rendered_numbers_parse_back(port as nat, 65535);
    assert(text::is_digit(ds[0]) && text::is_digit(ds[ds.len() - 1]));
    text::law_only_surrounding_white_space_is_trimmed(blank, ds, blank);
}

/// The token of the environment counts before that of the file, unless it is
/// blank, and either is sent without the white space around it.
pub proof fn law_the_token_of_the_environment_counts_first(
    blank: Seq<char>,
    token: Seq<char>,
    other: Option<Seq<char>>,
)
    requires
        token.len() > 0,
        !text::white_space(token[0]),
        !text::white_space(token.last()),
        forall|i: int| 0 <= i < blank.len() ==> text::white_space(#[trigger] blank[i]),
    ensures
        chosen_token(Some(blank + token + blank), other) == Some(token),
        chosen_token(None, Some(blank + token + blank)) == Some(token),
        chosen_token(Some(blank), Some(token)) == Some(token),
        chosen_token(Some(blank), None) is None,
        chosen_token(None, None) is None,
{
    text::law_only_surrounding_white_space_is_trimmed(blank, token, blank);
}

} // verus!
