//! The daemon client: failure classes, what an answer amounts to, framing, and
//! when to reconnect.

use vstd::prelude::*;

use crate::graph_walk::StatProbe;
use crate::protocol::{ErrorCode, VfsRequest, VfsResponse};
use crate::types::{DirEntry, VirtualStat};

verus! {

/// Delay before the first reconnection.
pub const BACKOFF_INITIAL_MS: u64 = 50;

/// The longest delay between reconnections.
pub const BACKOFF_MAX_MS: u64 = 200;

/// How many connections one call tries.
pub const BACKOFF_MAX_RETRIES: u32 = 3;

/// The longest payload of a frame.
pub const MAX_FRAME_SIZE: u32 = 0x0100_0000;

/// Why the last daemon call on a thread gave no answer.
#[derive(Debug, Clone, Copy, PartialEq, Eq, Structural)]
pub enum ClientCallFailure {
    /// It gave one.
    NoFailure,
    /// The graph holds no such entry.
    NotFound,
    /// The entry may not be read.
    PermissionDenied,
    /// The entry is a directory.
    IsDirectory,
    /// The entry is no directory.
    NotDirectory,
    /// The request made no sense for the entry.
    InvalidInput,
    /// The entry is a nested repository without a projection.
    UnsupportedBoundary,
    /// The daemon could not be reached.
    Unreachable,
    /// The daemon answered, but not with graph truth.
    Authority,
}

// ── Answers ─────────────────────────────────────────────────────────────

/// The failure that an answer amounts to, where it is not what was asked for.
pub open spec fn failure_of(response: VfsResponse) -> ClientCallFailure {
    match response {
        VfsResponse::Error { code, .. } => match code {
            ErrorCode::NotFound => ClientCallFailure::NotFound,
            ErrorCode::PermissionDenied => ClientCallFailure::PermissionDenied,
            ErrorCode::IsDirectory => ClientCallFailure::IsDirectory,
            ErrorCode::NotDirectory => ClientCallFailure::NotDirectory,
            ErrorCode::InvalidInput => ClientCallFailure::InvalidInput,
            ErrorCode::UnsupportedBoundary => ClientCallFailure::UnsupportedBoundary,
            ErrorCode::Internal => ClientCallFailure::Authority,
        },
        _ => ClientCallFailure::Authority,
    }
}

/// The failure that an answer amounts to, where it is not what was asked for.
pub fn response_failure(response: &VfsResponse) -> (r: ClientCallFailure)
    ensures
        r == failure_of(*response),
{
    match response {
        VfsResponse::Error { code: ErrorCode::NotFound, .. } => ClientCallFailure::NotFound,
        VfsResponse::Error {
            code: ErrorCode::PermissionDenied,
            ..
        } => ClientCallFailure::PermissionDenied,
        VfsResponse::Error {
            code: ErrorCode::IsDirectory,
            ..
        } => ClientCallFailure::IsDirectory,
        VfsResponse::Error {
            code: ErrorCode::NotDirectory,
            ..
        } => ClientCallFailure::NotDirectory,
        VfsResponse::Error {
            code: ErrorCode::InvalidInput,
            ..
        } => ClientCallFailure::InvalidInput,
        VfsResponse::Error {
            code: ErrorCode::UnsupportedBoundary,
            ..
        } => ClientCallFailure::UnsupportedBoundary,
        _ => ClientCallFailure::Authority,
    }
}

/// What an answer to a `Stat` amounts to.
pub open spec fn stat_answer(response: VfsResponse) -> Result<VirtualStat, ClientCallFailure> {
    match response {
        VfsResponse::Stat(stat) => Ok(stat),
        _ => Err(failure_of(response)),
    }
}

/// What an answer to a `Read` of a whole file amounts to.
pub open spec fn file_answer(response: VfsResponse) -> Result<Vec<u8>, ClientCallFailure> {
    match response {
        VfsResponse::Content { data, total_size } => if data@.len() == total_size {
            Ok(data)
        } else {
            Err(ClientCallFailure::Authority)
        },
        _ => Err(failure_of(response)),
    }
}

/// What an answer to a `Read` of a range amounts to.
pub open spec fn range_answer(response: VfsResponse, offset: u64, len: u64, size: u64) -> Result<
    Vec<u8>,
    ClientCallFailure,
> {
    match response {
        VfsResponse::Content { data, total_size } => if total_size == size && data@.len()
            == range_len(offset, len, size) {
            Ok(data)
        } else {
            Err(ClientCallFailure::Authority)
        },
        _ => Err(failure_of(response)),
    }
}

/// What an answer to a `ReadDir` amounts to.
pub open spec fn dir_answer(response: VfsResponse) -> Result<Vec<DirEntry>, ClientCallFailure> {
    match response {
        VfsResponse::DirEntries(entries) => Ok(entries),
        _ => Err(failure_of(response)),
    }
}

/// What an answer to a `ReadLink` amounts to.
pub open spec fn link_answer(response: VfsResponse) -> Result<Vec<u8>, ClientCallFailure> {
    match response {
        VfsResponse::LinkTarget(target) => Ok(target),
        _ => Err(failure_of(response)),
    }
}

/// What an answer to an `Access`, or about existence, amounts to.
pub open spec fn access_answer(response: VfsResponse) -> Result<bool, ClientCallFailure> {
    match response {
        VfsResponse::Accessible(granted) => Ok(granted),
        _ => Err(failure_of(response)),
    }
}

/// What an answer to a `Stat` over a named pipe gives.
pub open spec fn piped_stat(response: VfsResponse) -> Option<VirtualStat> {
    match response {
        VfsResponse::Stat(stat) => Some(stat),
        _ => None,
    }
}

/// What an answer to a `Read` over a named pipe gives.
pub open spec fn piped_content(response: VfsResponse) -> Option<Vec<u8>> {
    match response {
        VfsResponse::Content { data, .. } => Some(data),
        _ => None,
    }
}

/// What an answer to a `ReadDir` over a named pipe gives.
pub open spec fn piped_dir(response: VfsResponse) -> Option<Vec<DirEntry>> {
    match response {
        VfsResponse::DirEntries(entries) => Some(entries),
        _ => None,
    }
}

/// What an answer to a `ReadLink` over a named pipe gives.
pub open spec fn piped_link(response: VfsResponse) -> Option<Vec<u8>> {
    match response {
        VfsResponse::LinkTarget(target) => Some(target),
        _ => None,
    }
}

/// What an answer to an `Access`, or about existence, over a named pipe gives.
pub open spec fn piped_access(response: VfsResponse) -> Option<bool> {
    match response {
        VfsResponse::Accessible(granted) => Some(granted),
        _ => None,
    }
}

/// The answer to a question about one path.
pub open spec fn probe_of(answer: Result<VirtualStat, ClientCallFailure>, generation: u64) -> StatProbe {
    match answer {
        Ok(stat) => StatProbe::Present { stat, generation },
        Err(ClientCallFailure::NotFound) => StatProbe::Absent { generation },
        Err(_) => StatProbe::Unavailable,
    }
}

/// What the daemon's answer to a `Stat` amounts to.
pub fn client_stat(response: VfsResponse) -> (r: Result<VirtualStat, ClientCallFailure>)
    ensures
        r == stat_answer(response),
        r == match response {
            VfsResponse::Stat(stat) => Ok::<VirtualStat, ClientCallFailure>(stat),
            _ => Err(failure_of(response)),
        },
{
    match response {
        VfsResponse::Stat(stat) => Ok(stat),
        other => Err(response_failure(&other)),
    }
}

/// What the daemon's answer to a `Read` of a whole file amounts to: content
/// whose length is not the size it claims is no graph truth.
pub fn client_read_file(response: VfsResponse) -> (r: Result<Vec<u8>, ClientCallFailure>)
    ensures
        r == file_answer(response),
        r == match response {
            VfsResponse::Content { data, total_size } => if data@.len() == total_size {
                Ok::<Vec<u8>, ClientCallFailure>(data)
            } else {
                Err(ClientCallFailure::Authority)
            },
            _ => Err(failure_of(response)),
        },
{
    match response {
        VfsResponse::Content { data, total_size } => {
            if data.len() as u64 == total_size {
                Ok(data)
            } else {
                Err(ClientCallFailure::Authority)
            }
        },
        other => Err(response_failure(&other)),
    }
}

/// How many bytes a range of a file of `total` bytes holds.
pub open spec fn range_len(offset: u64, len: u64, total: u64) -> int {
    if offset >= total {
        0
    } else if len <= total - offset {
        len as int
    } else {
        total - offset
    }
}

/// What the daemon's answer to a `Read` of a range amounts to: it must be the
/// whole range, of a file of the size that is known.
pub fn client_read_range(response: VfsResponse, offset: u64, len: u64, expected_total: u64) -> (r:
    Result<Vec<u8>, ClientCallFailure>)
    ensures
        r == range_answer(response, offset, len, expected_total),
        r == match response {
            VfsResponse::Content { data, total_size } => if total_size == expected_total
                && data@.len() == range_len(offset, len, expected_total) {
                Ok::<Vec<u8>, ClientCallFailure>(data)
            } else {
                Err(ClientCallFailure::Authority)
            },
            _ => Err(failure_of(response)),
        },
{
    match response {
        VfsResponse::Content { data, total_size } => {
            let left: u64 = if offset >= expected_total {
                0
            } else {
                expected_total - offset
            };
            let wanted: u64 = if len <= left {
                len
            } else {
                left
            };
            if total_size == expected_total && data.len() as u64 == wanted {
                Ok(data)
            } else {
                Err(ClientCallFailure::Authority)
            }
        },
        other => Err(response_failure(&other)),
    }
}

/// What the daemon's answer to a `ReadDir` amounts to.
pub fn client_read_dir(response: VfsResponse) -> (r: Result<Vec<DirEntry>, ClientCallFailure>)
    ensures
        r == dir_answer(response),
        r == match response {
            VfsResponse::DirEntries(entries) => Ok::<Vec<DirEntry>, ClientCallFailure>(entries),
            _ => Err(failure_of(response)),
        },
{
    match response {
        VfsResponse::DirEntries(entries) => Ok(entries),
        other => Err(response_failure(&other)),
    }
}

/// What the daemon's answer to a `ReadLink` amounts to.
pub fn client_read_link(response: VfsResponse) -> (r: Result<Vec<u8>, ClientCallFailure>)
    ensures
        r == link_answer(response),
        r == match response {
            VfsResponse::LinkTarget(target) => Ok::<Vec<u8>, ClientCallFailure>(target),
            _ => Err(failure_of(response)),
        },
{
    match response {
        VfsResponse::LinkTarget(target) => Ok(target),
        other => Err(response_failure(&other)),
    }
}

/// What the daemon's answer to an `Access` amounts to.
pub fn client_access(response: VfsResponse) -> (r: Result<bool, ClientCallFailure>)
    ensures
        r == access_answer(response),
        r == match response {
            VfsResponse::Accessible(granted) => Ok::<bool, ClientCallFailure>(granted),
            _ => Err(failure_of(response)),
        },
{
    match response {
        VfsResponse::Accessible(granted) => Ok(granted),
        other => Err(response_failure(&other)),
    }
}

/// What the daemon's answer to a question about existence amounts to.
pub fn client_exists(response: VfsResponse) -> (r: Result<bool, ClientCallFailure>)
    ensures
        r == access_answer(response),
        r == match response {
            VfsResponse::Accessible(there) => Ok::<bool, ClientCallFailure>(there),
            _ => Err(failure_of(response)),
        },
{
    client_access(response)
}

// Over a named pipe an answer of another shape is no answer, and content is
// taken as it comes.

/// What an answer to a `Stat` over a named pipe gives.
pub fn client_stat_named_pipe(response: VfsResponse) -> (r: Option<VirtualStat>)
    ensures
        r == piped_stat(response),
        r == match response {
            VfsResponse::Stat(stat) => Some(stat),
            _ => None,
        },
{
    match response {
        VfsResponse::Stat(stat) => Some(stat),
        _ => None,
    }
}

/// What an answer to a `Read` of a whole file over a named pipe gives.
pub fn client_read_file_named_pipe(response: VfsResponse) -> (r: Option<Vec<u8>>)
    ensures
        r == piped_content(response),
        r == match response {
            VfsResponse::Content { data, .. } => Some(data),
            _ => None,
        },
{
    match response {
        VfsResponse::Content { data, .. } => Some(data),
        _ => None,
    }
}

/// What an answer to a `Read` of a range over a named pipe gives.
pub fn client_read_range_named_pipe(response: VfsResponse) -> (r: Option<Vec<u8>>)
    ensures
        r == piped_content(response),
        r == match response {
            VfsResponse::Content { data, .. } => Some(data),
            _ => None,
        },
{
    match response {
        VfsResponse::Content { data, .. } => Some(data),
        _ => None,
    }
}

/// What an answer to a `ReadDir` over a named pipe gives.
pub fn client_read_dir_named_pipe(response: VfsResponse) -> (r: Option<Vec<DirEntry>>)
    ensures
        r == piped_dir(response),
        r == match response {
            VfsResponse::DirEntries(entries) => Some(entries),
            _ => None,
        },
{
    match response {
        VfsResponse::DirEntries(entries) => Some(entries),
        _ => None,
    }
}

/// What an answer about existence over a named pipe gives.
pub fn client_exists_named_pipe(response: VfsResponse) -> (r: Option<bool>)
    ensures
        r == piped_access(response),
        r == match response {
            VfsResponse::Accessible(there) => Some(there),
            _ => None,
        },
{
    match response {
        VfsResponse::Accessible(there) => Some(there),
        _ => None,
    }
}

/// What an answer to a `ReadLink` over a named pipe gives.
pub fn client_read_link_named_pipe(response: VfsResponse) -> (r: Option<Vec<u8>>)
    ensures
        r == piped_link(response),
        r == match response {
            VfsResponse::LinkTarget(target) => Some(target),
            _ => None,
        },
{
    match response {
        VfsResponse::LinkTarget(target) => Some(target),
        _ => None,
    }
}

/// What an answer to an `Access` over a named pipe gives.
pub fn client_access_named_pipe(response: VfsResponse) -> (r: Option<bool>)
    ensures
        r == piped_access(response),
        r == match response {
            VfsResponse::Accessible(granted) => Some(granted),
            _ => None,
        },
{
    match response {
        VfsResponse::Accessible(granted) => Some(granted),
        _ => None,
    }
}

/// The answer to a question about one path, from how the call went and the
/// generation that answered. Only a definitive miss is an absence.
pub fn stat_probe(answer: Result<VirtualStat, ClientCallFailure>, generation: u64) -> (r: StatProbe)
    ensures
        r == probe_of(answer, generation),
        r == match answer {
            Ok(stat) => StatProbe::Present { stat, generation },
            Err(ClientCallFailure::NotFound) => StatProbe::Absent { generation },
            Err(_) => StatProbe::Unavailable,
        },
{
    match answer {
        Ok(stat) => StatProbe::Present { stat, generation },
        Err(ClientCallFailure::NotFound) => StatProbe::Absent { generation },
        Err(_) => StatProbe::Unavailable,
    }
}

// ── Per-thread memory and announcements ─────────────────────────────────

/// What a thread remembers of its last call.
#[derive(Debug, Clone, Copy, PartialEq, Eq, Structural)]
pub struct LastCall {
    failure: ClientCallFailure,
}

/// What is remembered of a call that ended so.
pub open spec fn remembered(verdict: CallVerdict) -> ClientCallFailure {
    match verdict {
        CallVerdict::Failed(failure) => failure,
        _ => ClientCallFailure::NoFailure,
    }
}

/// Whether a process has announced itself after a first contact, and whether it
/// does so now.
pub open spec fn announcing(announced: bool, token: bool) -> (bool, bool) {
    (true, !announced && token)
}

impl LastCall {
    /// How the last call went.
    pub closed spec fn went(&self) -> ClientCallFailure {
        self.failure
    }

    /// No call was made yet.
    pub fn new() -> (r: LastCall)
        ensures
            r.went() == ClientCallFailure::NoFailure,
    {
        LastCall { failure: ClientCallFailure::NoFailure }
    }

    /// Records how a call went.
    pub fn set_last_failure(&mut self, failure: ClientCallFailure)
        ensures
            final(self).went() == failure,
    {
        self.failure = failure;
    }

    /// Records the end of a call. An answer clears what earlier calls left.
    pub fn conclude(&mut self, verdict: CallVerdict)
        ensures
            final(self).went() == remembered(verdict),
            final(self).went() == match verdict {
                CallVerdict::Failed(failure) => failure,
                _ => ClientCallFailure::NoFailure,
            },
    {
        match verdict {
            CallVerdict::Failed(failure) => self.set_last_failure(failure),
            _ => self.set_last_failure(ClientCallFailure::NoFailure),
        }
    }

    /// How the last call went.
    pub fn last_call_failure(&self) -> (r: ClientCallFailure)
        ensures
            r == self.went(),
    {
        self.failure
    }
}

/// Whether the launch token was announced by this process.
#[derive(Debug, Clone, Copy, PartialEq, Eq, Structural)]
pub struct Announcement {
    pub announced: bool,
}

impl Announcement {
    /// Nothing was announced yet.
    pub fn new() -> (r: Announcement)
        ensures
            !r.announced,
    {
        Announcement { announced: false }
    }

    /// Whether the announcement is due now: on first contact with the daemon,
    /// where a launcher gave a token. It is due at most once.
    pub fn announce_interpose_once(&mut self, token: bool) -> (r: bool)
        ensures
            (final(self).announced, r) == announcing(old(self).announced, token),
            r == (!old(self).announced && token),
            final(self).announced,
    {
        let first: bool = !self.announced;
        self.announced = true;
        first && token
    }

    /// Begins the report of a bypass. It announces on its own connection, so
    /// the lazy announcement must not follow.
    pub fn begin_bypass_report(&mut self)
        ensures
            final(self).announced,
    {
        self.announced = true;
    }
}

/// Whether the daemon took an announcement; no answer is a refusal.
pub fn announce_interpose(reply: Option<&VfsResponse>) -> (r: bool)
    ensures
        r == took(
            match reply {
                Some(response) => Some(*response),
                None => None,
            },
        ),
        r == (reply is Some && *reply->0 is Announced),
{
    match reply {
        Some(VfsResponse::Announced) => true,
        _ => false,
    }
}

/// Whether an answer acknowledges what was sent.
pub open spec fn took(reply: Option<VfsResponse>) -> bool {
    reply is Some && reply->0 is Announced
}

/// Where the report of a bypass stands.
#[derive(Debug, Clone, Copy, PartialEq, Eq, Structural)]
pub enum BypassStage {
    Connecting,
    Announcing,
    Reporting,
    Finished,
}

/// What the report of a bypass asks for next. Both requests go over the one
/// connection that was made.
#[derive(Debug)]
pub enum BypassAction {
    Connect,
    Send(VfsRequest),
    /// It is over; whether the daemon took the report.
    Done(bool),
}

/// How an action of the report ended.
#[derive(Debug)]
pub enum BypassEvent {
    Connected,
    Refused,
    /// The answer to the request; none where the exchange failed.
    Answer(Option<VfsResponse>),
}

/// An action by its contents.
pub enum BypassStep {
    Connect,
    Announce { pid: u32, token: Seq<char> },
    Report { token: Seq<char>, surface: Seq<char> },
    Other,
    Done(bool),
}

/// What an action asks for.
pub open spec fn asked(action: BypassAction) -> BypassStep {
    match action {
        BypassAction::Connect => BypassStep::Connect,
        BypassAction::Send(VfsRequest::Announce { pid, token }) => BypassStep::Announce {
            pid,
            token: token@,
        },
        BypassAction::Send(VfsRequest::CanaryBypass { token, surface }) => BypassStep::Report {
            token: token@,
            surface: surface@,
        },
        BypassAction::Send(_) => BypassStep::Other,
        BypassAction::Done(taken) => BypassStep::Done(taken),
    }
}

/// Whether an event can end the action that a stage waits for.
pub open spec fn bypass_awaits(stage: BypassStage, event: BypassEvent) -> bool {
    match stage {
        BypassStage::Connecting => !(event is Answer),
        BypassStage::Announcing | BypassStage::Reporting => event is Answer,
        BypassStage::Finished => false,
    }
}

/// The report of a surface that served a workspace path from raw disk.
#[derive(Debug)]
pub struct BypassReport {
    pid: u32,
    token: String,
    surface: String,
    stage: BypassStage,
}

/// A report by its contents.
pub struct BypassModel {
    pub pid: u32,
    pub token: Seq<char>,
    pub surface: Seq<char>,
    pub stage: BypassStage,
}

impl BypassModel {
    /// The report at another stage.
    pub open spec fn at(self, stage: BypassStage) -> BypassModel {
        BypassModel { pid: self.pid, token: self.token, surface: self.surface, stage }
    }

    /// The report after an event, and what it asks for next. The announcement
    /// goes out once connected, the report once the announcement was taken;
    /// anything else ends it.
    pub open spec fn after(self, event: BypassEvent) -> (BypassModel, BypassStep) {
        match (self.stage, event) {
            (BypassStage::Connecting, BypassEvent::Connected) => (
                self.at(BypassStage::Announcing),
                BypassStep::Announce { pid: self.pid, token: self.token },
            ),
            (BypassStage::Announcing, BypassEvent::Answer(reply)) if took(reply) => (
                self.at(BypassStage::Reporting),
                BypassStep::Report { token: self.token, surface: self.surface },
            ),
            (BypassStage::Reporting, BypassEvent::Answer(reply)) => (
                self.at(BypassStage::Finished),
                BypassStep::Done(took(reply)),
            ),
            _ => (self.at(BypassStage::Finished), BypassStep::Done(false)),
        }
    }
}

impl View for BypassReport {
    type V = BypassModel;

    closed spec fn view(&self) -> BypassModel {
        BypassModel {
            pid: self.pid,
            token: self.token@,
            surface: self.surface@,
            stage: self.stage,
        }
    }
}

impl BypassReport {
    /// Begins a report of `surface` by the process `pid` under `token`.
    pub fn begin(pid: u32, token: &str, surface: &str) -> (r: (BypassReport, BypassAction))
        ensures
            r.0@ == (BypassModel {
                pid,
                token: token@,
                surface: surface@,
                stage: BypassStage::Connecting,
            }),
            asked(r.1) == BypassStep::Connect,
    {
        (
            BypassReport {
                pid,
                token: token.to_owned(),
                surface: surface.to_owned(),
                stage: BypassStage::Connecting,
            },
            BypassAction::Connect,
        )
    }
}

/// Takes the report of a bypass one step on. A report without the announcement
/// before it on the same connection would be misread as a stripped shim.
pub fn report_interpose_bypass(report: &mut BypassReport, event: BypassEvent) -> (r: BypassAction)
    requires
        bypass_awaits(old(report)@.stage, event),
    ensures
        (final(report)@, asked(r)) == old(report)@.after(event),
{
    match (report.stage, event) {
        (BypassStage::Connecting, BypassEvent::Connected) => {
            report.stage = BypassStage::Announcing;
            let token: String = report.token.as_str().to_owned();
            BypassAction::Send(VfsRequest::Announce { pid: report.pid, token })
        },
        (BypassStage::Announcing, BypassEvent::Answer(reply)) => {
            if announce_interpose(reply.as_ref()) {
                report.stage = BypassStage::Reporting;
                let token: String = report.token.as_str().to_owned();
                let surface: String = report.surface.as_str().to_owned();
                BypassAction::Send(VfsRequest::CanaryBypass { token, surface })
            } else {
                report.stage = BypassStage::Finished;
                BypassAction::Done(false)
            }
        },
        (BypassStage::Reporting, BypassEvent::Answer(reply)) => {
            report.stage = BypassStage::Finished;
            BypassAction::Done(announce_interpose(reply.as_ref()))
        },
        _ => {
            report.stage = BypassStage::Finished;
            BypassAction::Done(false)
        },
    }
}

/// All that a report asks for from its beginning, where the connection is made
/// or refused, and `first` and `second` are the answers to its two requests.
pub open spec fn bypass_run(
    report: BypassModel,
    connected: bool,
    first: Option<VfsResponse>,
    second: Option<VfsResponse>,
) -> Seq<BypassStep> {
    let connection = if connected {
        BypassEvent::Connected
    } else {
        BypassEvent::Refused
    };
    let (one, a) = report.at(BypassStage::Connecting).after(connection);
    let (two, b) = one.after(BypassEvent::Answer(first));
    let (three, c) = two.after(BypassEvent::Answer(second));
    if a is Done {
        seq![BypassStep::Connect, a]
    } else if b is Done {
        seq![BypassStep::Connect, a, b]
    } else {
        seq![BypassStep::Connect, a, b, c]
    }
}

/// A bypass is reported only behind the announcement of the same process and
/// token, acknowledged on the same connection, and the whole report is a
/// success exactly where the connection was made and both were acknowledged.
pub proof fn law_a_report_follows_its_announcement(
    report: BypassModel,
    connected: bool,
    first: Option<VfsResponse>,
    second: Option<VfsResponse>,
)
    ensures
        ({
            let run = bypass_run(report, connected, first, second);
            let announce = BypassStep::Announce { pid: report.pid, token: report.token };
            let bypass = BypassStep::Report { token: report.token, surface: report.surface };
            &&& run[0] == BypassStep::Connect
            &&& run.last() == BypassStep::Done(connected && took(first) && took(second))
            &&& run.contains(announce) <==> connected
            &&& run.contains(bypass) <==> connected && took(first)
            &&& forall|i: int|
                0 <= i < run.len() && (#[trigger] run[i]) is Report ==> i == 2 && run[i] == bypass
                    && run[1] == announce && took(first)
            &&& forall|i: int|
                0 <= i < run.len() && (#[trigger] run[i]) is Connect ==> i == 0
        }),
{
    let run = bypass_run(report, connected, first, second);
    if connected {
        assert(run[1] == BypassStep::Announce { pid: report.pid, token: report.token });
        if took(first) {
            assert(run[2] == BypassStep::Report { token: report.token, surface: report.surface });
        }
    }
}

// ── Framing ─────────────────────────────────────────────────────────────

/// The bytes of a length, most significant first.
pub open spec fn big_endian(n: u32) -> Seq<u8> {
    seq![
        (n / 0x0100_0000) as u8,
        (n / 0x0001_0000 % 0x100) as u8,
        (n / 0x0000_0100 % 0x100) as u8,
        (n % 0x100) as u8,
    ]
}

/// The length that four bytes stand for.
pub open spec fn from_big_endian(b: Seq<u8>) -> int {
    b[0] * 0x0100_0000 + b[1] * 0x0001_0000 + b[2] * 0x0000_0100 + b[3]
}

/// A frame: the length of the payload, then the payload.
pub open spec fn framed(payload: Seq<u8>) -> Seq<u8> {
    big_endian(payload.len() as u32) + payload
}

/// The length of the payload that a header announces.
pub open spec fn announced_length(header: Seq<u8>) -> Option<u32> {
    if from_big_endian(header) <= MAX_FRAME_SIZE {
        Some(from_big_endian(header) as u32)
    } else {
        None
    }
}

/// Frames a payload.
pub fn encode_frame(payload: &[u8]) -> (r: Vec<u8>)
    requires
        payload@.len() <= u32::MAX,
    ensures
        r@ == framed(payload@),
{
    let n: u32 = payload.len() as u32;
    let mut out: Vec<u8> = Vec::new();
    out.push((n / 0x0100_0000) as u8);
    out.push((n / 0x0001_0000 % 0x100) as u8);
    out.push((n / 0x0000_0100 % 0x100) as u8);
    out.push((n % 0x100) as u8);
    assert(out@ =~= big_endian(n));
    crate::bytes::push_bytes(&mut out, payload);
    out
}

/// The length of the payload that a header announces; one that is too long is
/// refused before anything is read.
pub fn frame_length(header: &[u8; 4]) -> (r: Option<u32>)
    ensures
        r == announced_length(header@),
        r == if from_big_endian(header@) <= MAX_FRAME_SIZE {
            Some(from_big_endian(header@) as u32)
        } else {
            None
        },
{
    let n: u32 = header[0] as u32 * 0x0100_0000 + header[1] as u32 * 0x0001_0000 + header[2] as u32
        * 0x0000_0100 + header[3] as u32;
    if n > MAX_FRAME_SIZE {
        None
    } else {
        Some(n)
    }
}

/// A header says how long the payload of its frame is.
pub proof fn law_a_frame_says_its_length(payload: Seq<u8>)
    requires
        payload.len() <= u32::MAX,
    ensures
        from_big_endian(framed(payload).subrange(0, 4)) == payload.len(),
        framed(payload).subrange(4, framed(payload).len() as int) == payload,
{
    let n = payload.len() as u32;
    let header = framed(payload).subrange(0, 4);
    assert(header =~= big_endian(n));
    assert(framed(payload).subrange(4, framed(payload).len() as int) =~= payload);
    assert(n == (n / 0x0100_0000) * 0x0100_0000 + (n / 0x0001_0000 % 0x100) * 0x0001_0000 + (n
        / 0x0000_0100 % 0x100) * 0x0000_0100 + n % 0x100);
}

// ── Backoff ─────────────────────────────────────────────────────────────

/// The delay before jitter: it doubles, and stops at the longest.
pub open spec fn capped(attempt: u32) -> u64 {
    if attempt == 0 {
        50
    } else if attempt == 1 {
        100
    } else {
        200
    }
}

/// One round of xorshift.
pub open spec fn scrambled(seed: u64) -> u64 {
    let a = seed ^ (seed << 13);
    let b = a ^ (a >> 7);
    b ^ (b << 17)
}

/// What the jitter of an attempt is drawn from.
pub open spec fn jitter_seed(thread: u64, attempt: u32) -> u64 {
    scrambled(thread ^ (attempt as u64).wrapping_mul(0x9E37_79B9_7F4A_7C15))
}

/// The delay after a failed attempt, in milliseconds.
pub open spec fn delay(attempt: u32, thread: u64) -> int {
    let quarter = capped(attempt) as int / 4;
    capped(attempt) - quarter + jitter_seed(thread, attempt) as int % (2 * quarter + 1)
}

/// The delay after a failed attempt, in milliseconds: exponential, within a
/// quarter either way. `thread` is a number of the calling thread.
pub fn backoff_with_jitter(attempt: u32, thread: u64) -> (r: u64)
    ensures
        r == delay(attempt, thread),
{
    let capped_ms: u64 = if attempt == 0 {
        BACKOFF_INITIAL_MS
    } else if attempt == 1 {
        2 * BACKOFF_INITIAL_MS
    } else {
        BACKOFF_MAX_MS
    };
    let mut seed: u64 = thread ^ (attempt as u64).wrapping_mul(0x9E37_79B9_7F4A_7C15);
    seed = seed ^ (seed << 13);
    seed = seed ^ (seed >> 7);
    seed = seed ^ (seed << 17);
    let quarter: u64 = capped_ms / 4;
    capped_ms - quarter + seed % (2 * quarter + 1)
}

/// Every delay is at least a millisecond and at most a quarter over the longest.
pub proof fn law_delays_are_bounded(attempt: u32, thread: u64)
    ensures
        1 <= delay(attempt, thread),
        capped(attempt) - capped(attempt) / 4 <= delay(attempt, thread) <= capped(attempt) + capped(
            attempt,
        ) / 4,
        delay(attempt, thread) <= BACKOFF_MAX_MS + BACKOFF_MAX_MS / 4,
{
}

// ── Reconnecting ────────────────────────────────────────────────────────

/// What came of the last step of a call.
#[derive(Debug, Clone, Copy, PartialEq, Eq, Structural)]
pub enum CallEvent {
    /// The daemon gave what was asked for.
    Answered,
    /// The daemon answered with this failure.
    Failed(ClientCallFailure),
    /// The connection broke before an answer came.
    Dropped,
    /// A connection was made.
    Connected,
    /// No connection was made.
    Refused,
    /// The delay is over.
    Slept,
}

/// How a call ends.
#[derive(Debug, Clone, Copy, PartialEq, Eq, Structural)]
pub enum CallVerdict {
    /// With an answer.
    Answered,
    /// With a failure of this class.
    Failed(ClientCallFailure),
    /// Without an answer, over a named pipe that broke.
    Broken,
}

/// What a call needs next.
#[derive(Debug, Clone, Copy, PartialEq, Eq, Structural)]
pub enum CallAction {
    /// Send the request over the connection that the thread holds.
    UseHeld,
    /// Let go of the held connection, if any, and make a new one.
    Connect,
    /// Send the request over the new connection.
    UseNew,
    /// Wait this many milliseconds.
    Sleep(u64),
    /// End. The thread holds on to the connection just used, or to none.
    Finish { verdict: CallVerdict, hold: bool },
}

/// Where a call stands.
#[derive(Debug, Clone, Copy, PartialEq, Eq, Structural)]
pub enum CallStage {
    Held,
    Connecting,
    New,
    Sleeping,
    Finished,
}

/// A call under way.
#[derive(Debug, Clone, Copy, PartialEq, Eq, Structural)]
pub struct ClientCall {
    /// Over named pipes, where a broken new connection is not tried again.
    pub pipes: bool,
    /// Connections tried so far.
    pub attempt: u32,
    pub stage: CallStage,
}

/// Whether an event is what the stage waits for.
pub open spec fn awaited(call: ClientCall, event: CallEvent) -> bool {
    match call.stage {
        CallStage::Held | CallStage::New => match event {
            CallEvent::Answered | CallEvent::Dropped => true,
            CallEvent::Failed(_) => !call.pipes,
            _ => false,
        },
        CallStage::Connecting => event is Connected || event is Refused,
        CallStage::Sleeping => event is Slept,
        CallStage::Finished => false,
    }
}

/// Another stage of the same call.
pub open spec fn at_stage(call: ClientCall, attempt: u32, stage: CallStage) -> ClientCall {
    ClientCall { pipes: call.pipes, attempt, stage }
}

/// The call and what it needs, after `event`. `thread` is a number of the
/// calling thread.
pub open spec fn next(call: ClientCall, event: CallEvent, thread: u64) -> (ClientCall, CallAction) {
    let done = at_stage(call, call.attempt, CallStage::Finished);
    let waiting = (
        at_stage(call, call.attempt, CallStage::Sleeping),
        CallAction::Sleep(delay(call.attempt, thread) as u64),
    );
    match (call.stage, event) {
        (CallStage::Held, CallEvent::Answered) => (
            done,
            CallAction::Finish { verdict: CallVerdict::Answered, hold: true },
        ),
        (CallStage::Held, CallEvent::Failed(failure)) => (
            done,
            CallAction::Finish { verdict: CallVerdict::Failed(failure), hold: true },
        ),
        (CallStage::Held, _) => (
            at_stage(call, call.attempt, CallStage::Connecting),
            CallAction::Connect,
        ),
        (CallStage::Connecting, CallEvent::Connected) => (
            at_stage(call, call.attempt, CallStage::New),
            CallAction::UseNew,
        ),
        (CallStage::Connecting, _) => waiting,
        (CallStage::New, CallEvent::Answered) => (
            done,
            CallAction::Finish { verdict: CallVerdict::Answered, hold: true },
        ),
        (CallStage::New, CallEvent::Failed(failure)) => (
            done,
            CallAction::Finish { verdict: CallVerdict::Failed(failure), hold: false },
        ),
        (CallStage::New, _) => if call.pipes {
            (done, CallAction::Finish { verdict: CallVerdict::Broken, hold: false })
        } else {
            waiting
        },
        (CallStage::Sleeping, _) => if call.attempt + 1 < BACKOFF_MAX_RETRIES {
            (
                at_stage(call, (call.attempt + 1) as u32, CallStage::Connecting),
                CallAction::Connect,
            )
        } else {
            (
                done,
                CallAction::Finish {
                    verdict: CallVerdict::Failed(ClientCallFailure::Unreachable),
                    hold: false,
                },
            )
        },
        (CallStage::Finished, _) => (
            done,
            CallAction::Finish { verdict: CallVerdict::Broken, hold: false },
        ),
    }
}

/// How a call starts on a thread that holds a connection, or none.
pub open spec fn starting(held: bool, pipes: bool) -> (ClientCall, CallAction) {
    if held {
        (ClientCall { pipes, attempt: 0, stage: CallStage::Held }, CallAction::UseHeld)
    } else {
        (ClientCall { pipes, attempt: 0, stage: CallStage::Connecting }, CallAction::Connect)
    }
}

impl ClientCall {
    /// Begins a call on a thread that holds a connection, or none.
    pub fn begin(held: bool, pipes: bool) -> (r: (ClientCall, CallAction))
        ensures
            r == starting(held, pipes),
            r.0.pipes == pipes,
            r.0.attempt == 0,
            if held {
                r.0.stage == CallStage::Held && r.1 == CallAction::UseHeld
            } else {
                r.0.stage == CallStage::Connecting && r.1 == CallAction::Connect
            },
    {
        if held {
            (ClientCall { pipes, attempt: 0, stage: CallStage::Held }, CallAction::UseHeld)
        } else {
            (ClientCall { pipes, attempt: 0, stage: CallStage::Connecting }, CallAction::Connect)
        }
    }

    /// Waits before the next connection.
    fn wait(&mut self, thread: u64) -> (r: CallAction)
        ensures
            *final(self) == at_stage(*old(self), old(self).attempt, CallStage::Sleeping),
            r == CallAction::Sleep(delay(old(self).attempt, thread) as u64),
    {
        self.stage = CallStage::Sleeping;
        CallAction::Sleep(backoff_with_jitter(self.attempt, thread))
    }

    /// Takes what came of the last step.
    pub fn advance(&mut self, event: CallEvent, thread: u64) -> (r: CallAction)
        requires
            awaited(*old(self), event),
        ensures
            (*final(self), r) == next(*old(self), event, thread),
    {
        match (self.stage, event) {
            (CallStage::Held, CallEvent::Answered) => {
                self.stage = CallStage::Finished;
                CallAction::Finish { verdict: CallVerdict::Answered, hold: true }
            },
            (CallStage::Held, CallEvent::Failed(failure)) => {
                self.stage = CallStage::Finished;
                CallAction::Finish { verdict: CallVerdict::Failed(failure), hold: true }
            },
            (CallStage::Held, _) => {
                self.stage = CallStage::Connecting;
                CallAction::Connect
            },
            (CallStage::Connecting, CallEvent::Connected) => {
                self.stage = CallStage::New;
                CallAction::UseNew
            },
            (CallStage::Connecting, _) => self.wait(thread),
            (CallStage::New, CallEvent::Answered) => {
                self.stage = CallStage::Finished;
                CallAction::Finish { verdict: CallVerdict::Answered, hold: true }
            },
            (CallStage::New, CallEvent::Failed(failure)) => {
                self.stage = CallStage::Finished;
                CallAction::Finish { verdict: CallVerdict::Failed(failure), hold: false }
            },
            (CallStage::New, _) => {
                if self.pipes {
                    self.stage = CallStage::Finished;
                    CallAction::Finish { verdict: CallVerdict::Broken, hold: false }
                } else {
                    self.wait(thread)
                }
            },
            (CallStage::Sleeping, _) => {
                if self.attempt < BACKOFF_MAX_RETRIES - 1 {
                    self.attempt = self.attempt + 1;
                    self.stage = CallStage::Connecting;
                    CallAction::Connect
                } else {
                    self.stage = CallStage::Finished;
                    CallAction::Finish {
                        verdict: CallVerdict::Failed(ClientCallFailure::Unreachable),
                        hold: false,
                    }
                }
            },
            (CallStage::Finished, _) => CallAction::Finish {
                verdict: CallVerdict::Broken,
                hold: false,
            },
        }
    }
}

/// How many steps a call may still take.
pub open spec fn steps_left(call: ClientCall) -> int {
    let tries = if call.attempt < BACKOFF_MAX_RETRIES {
        BACKOFF_MAX_RETRIES - call.attempt
    } else {
        1
    };
    match call.stage {
        CallStage::Held => 3 * tries + 1,
        CallStage::Connecting => 3 * tries,
        CallStage::New => 3 * tries - 1,
        CallStage::Sleeping => 3 * tries - 2,
        CallStage::Finished => 0,
    }
}

/// Every call ends, after ten steps at the most.
pub proof fn law_a_call_ends(call: ClientCall, event: CallEvent, thread: u64)
    requires
        awaited(call, event),
    ensures
        0 <= steps_left(next(call, event, thread).0) < steps_left(call) <= 10,
        steps_left(next(call, event, thread).0) == 0 <==> next(call, event, thread).1 is Finish,
{
}

/// The daemon is called unreachable only after the last connection was tried
/// and waited for; a failure that it reported itself is never tried again.
pub proof fn law_unreachable_means_every_connection_failed(
    call: ClientCall,
    event: CallEvent,
    thread: u64,
)
    requires
        awaited(call, event),
    ensures
        next(call, event, thread).1 matches CallAction::Finish { verdict, .. } && verdict
            == CallVerdict::Failed(ClientCallFailure::Unreachable) ==> event == CallEvent::Failed(
            ClientCallFailure::Unreachable,
        ) || call.stage is Sleeping && call.attempt + 1 >= BACKOFF_MAX_RETRIES,
        event matches CallEvent::Failed(failure) ==> next(call, event, thread).1 is Finish && next(
            call,
            event,
            thread,
        ).1->verdict == CallVerdict::Failed(failure),
{
}

// ── Laws ────────────────────────────────────────────────────────────────

/// What was asked for is handed out as it came: metadata, a listing, a link's
/// target, a yes or a no. The content of a file is handed out exactly where it
/// is as long as the file is said to be, and a range exactly where it holds
/// every byte of the file that was asked for, of a file of the known size.
pub proof fn law_an_answer_is_handed_out_as_it_came(
    stat: VirtualStat,
    entries: Vec<DirEntry>,
    target: Vec<u8>,
    granted: bool,
    data: Vec<u8>,
    total: u64,
    offset: u64,
    len: u64,
    size: u64,
)
    ensures
        stat_answer(VfsResponse::Stat(stat)) == Ok::<VirtualStat, ClientCallFailure>(stat),
        dir_answer(VfsResponse::DirEntries(entries)) == Ok::<Vec<DirEntry>, ClientCallFailure>(
            entries,
        ),
        link_answer(VfsResponse::LinkTarget(target)) == Ok::<Vec<u8>, ClientCallFailure>(target),
        access_answer(VfsResponse::Accessible(granted)) == Ok::<bool, ClientCallFailure>(granted),
        file_answer(VfsResponse::Content { data, total_size: total }) == if data@.len() == total {
            Ok::<Vec<u8>, ClientCallFailure>(data)
        } else {
            Err(ClientCallFailure::Authority)
        },
        offset <= size && offset + len <= size ==> (range_answer(
            VfsResponse::Content { data, total_size: total },
            offset,
            len,
            size,
        ) is Ok <==> total == size && data@.len() == len),
        offset <= size && offset + len > size ==> (range_answer(
            VfsResponse::Content { data, total_size: total },
            offset,
            len,
            size,
        ) is Ok <==> total == size && data@.len() == size - offset),
        offset > size ==> (range_answer(
            VfsResponse::Content { data, total_size: total },
            offset,
            len,
            size,
        ) is Ok <==> total == size && data@.len() == 0),
        range_answer(VfsResponse::Content { data, total_size: total }, offset, len, size)
            matches Ok(handed) ==> handed == data,
        range_answer(VfsResponse::Content { data, total_size: total }, offset, len, size)
            matches Err(failure) ==> failure == ClientCallFailure::Authority,
{
}

/// An answer that is not what was asked for is a failure: the daemon's own where
/// it says why, each of its codes as a class of its own, and else no graph truth.
pub proof fn law_another_answer_is_a_failure(
    response: VfsResponse,
    offset: u64,
    len: u64,
    size: u64,
)
    ensures
        !(response is Stat) ==> stat_answer(response) == Err::<VirtualStat, ClientCallFailure>(
            failure_of(response),
        ),
        !(response is Content) ==> file_answer(response) == Err::<Vec<u8>, ClientCallFailure>(
            failure_of(response),
        ) && range_answer(response, offset, len, size) == Err::<Vec<u8>, ClientCallFailure>(
            failure_of(response),
        ),
        !(response is DirEntries) ==> dir_answer(response) == Err::<
            Vec<DirEntry>,
            ClientCallFailure,
        >(failure_of(response)),
        !(response is LinkTarget) ==> link_answer(response) == Err::<Vec<u8>, ClientCallFailure>(
            failure_of(response),
        ),
        !(response is Accessible) ==> access_answer(response) == Err::<bool, ClientCallFailure>(
            failure_of(response),
        ),
        !(response is Error) ==> failure_of(response) == ClientCallFailure::Authority,
        response is Error ==> match response->code {
            ErrorCode::NotFound => failure_of(response) == ClientCallFailure::NotFound,
            ErrorCode::PermissionDenied => failure_of(response)
                == ClientCallFailure::PermissionDenied,
            ErrorCode::IsDirectory => failure_of(response) == ClientCallFailure::IsDirectory,
            ErrorCode::NotDirectory => failure_of(response) == ClientCallFailure::NotDirectory,
            ErrorCode::InvalidInput => failure_of(response) == ClientCallFailure::InvalidInput,
            ErrorCode::UnsupportedBoundary => failure_of(response)
                == ClientCallFailure::UnsupportedBoundary,
            ErrorCode::Internal => failure_of(response) == ClientCallFailure::Authority,
        },
        failure_of(response) != ClientCallFailure::NoFailure && failure_of(response)
            != ClientCallFailure::Unreachable,
{
}

/// Over a named pipe an answer of the shape that was asked for is taken as it
/// comes, whatever size it claims; any other is no answer.
pub proof fn law_a_pipe_takes_what_has_the_right_shape(response: VfsResponse)
    ensures
        piped_stat(response) is Some <==> response is Stat,
        response matches VfsResponse::Stat(stat) ==> piped_stat(response) == Some(stat),
        piped_content(response) is Some <==> response is Content,
        response matches VfsResponse::Content { data, .. } ==> piped_content(response) == Some(data),
        piped_dir(response) is Some <==> response is DirEntries,
        response matches VfsResponse::DirEntries(entries) ==> piped_dir(response) == Some(entries),
        piped_link(response) is Some <==> response is LinkTarget,
        response matches VfsResponse::LinkTarget(target) ==> piped_link(response) == Some(target),
        piped_access(response) is Some <==> response is Accessible,
        response matches VfsResponse::Accessible(granted) ==> piped_access(response) == Some(
            granted,
        ),
{
}

/// Only a definitive miss is an absence; metadata is a presence of the
/// generation that answered; every other failure leaves the question open.
pub proof fn law_only_a_definitive_miss_is_an_absence(
    stat: VirtualStat,
    failure: ClientCallFailure,
    generation: u64,
)
    ensures
        probe_of(Ok(stat), generation) == (StatProbe::Present { stat, generation }),
        probe_of(Err(failure), generation) is Absent <==> failure == ClientCallFailure::NotFound,
        probe_of(Err(ClientCallFailure::NotFound), generation) == (StatProbe::Absent { generation }),
        probe_of(Err(failure), generation) is Unavailable <==> failure
            != ClientCallFailure::NotFound,
{
}

/// The calls that an unreachable daemon costs: three connections, each followed
/// by a wait that is longer than the one before, and then the failure, with no
/// connection held. A connection that was held and broke counts for none of
/// them.
pub proof fn law_an_unreachable_daemon_is_tried_three_times(held: bool, pipes: bool, thread: u64)
    ensures
        ({
            let (start, first) = starting(held, pipes);
            let begun = if held {
                next(start, CallEvent::Dropped, thread)
            } else {
                (start, first)
            };
            let (c1, a1) = next(begun.0, CallEvent::Refused, thread);
            let (c2, a2) = next(c1, CallEvent::Slept, thread);
            let (c3, a3) = next(c2, CallEvent::Refused, thread);
            let (c4, a4) = next(c3, CallEvent::Slept, thread);
            let (c5, a5) = next(c4, CallEvent::Refused, thread);
            let (c6, a6) = next(c5, CallEvent::Slept, thread);
            &&& held ==> first == CallAction::UseHeld
            &&& begun.1 == CallAction::Connect && a2 == CallAction::Connect && a4
                == CallAction::Connect
            &&& a1 matches CallAction::Sleep(ms) && 38 <= ms <= 62
            &&& a3 matches CallAction::Sleep(ms) && 75 <= ms <= 125
            &&& a5 matches CallAction::Sleep(ms) && 150 <= ms <= 250
            &&& a6 == (CallAction::Finish {
                verdict: CallVerdict::Failed(ClientCallFailure::Unreachable),
                hold: false,
            })
        }),
{
}

/// A daemon that is there is asked once: over the connection that is held, or
/// over a new one where none is held or the held one broke. The connection that
/// gave the answer is held for the next call. A failure that the daemon reports
/// ends the call with that failure, and only a new connection is let go for it.
pub proof fn law_a_daemon_that_is_there_is_asked_once(
    held: bool,
    pipes: bool,
    failure: ClientCallFailure,
    thread: u64,
)
    ensures
        ({
            let (start, first) = starting(held, pipes);
            let begun = if held {
                next(start, CallEvent::Dropped, thread)
            } else {
                (start, first)
            };
            let (fresh, send) = next(begun.0, CallEvent::Connected, thread);
            let answered = CallAction::Finish { verdict: CallVerdict::Answered, hold: true };
            &&& held ==> first == CallAction::UseHeld && next(
                start,
                CallEvent::Answered,
                thread,
            ).1 == answered && next(start, CallEvent::Failed(failure), thread).1 == (
            CallAction::Finish { verdict: CallVerdict::Failed(failure), hold: true })
            &&& !held ==> first == CallAction::Connect
            &&& send == CallAction::UseNew
            &&& next(fresh, CallEvent::Answered, thread).1 == answered
            &&& next(fresh, CallEvent::Failed(failure), thread).1 == (CallAction::Finish {
                verdict: CallVerdict::Failed(failure),
                hold: false,
            })
            &&& pipes ==> next(fresh, CallEvent::Dropped, thread).1 == (CallAction::Finish {
                verdict: CallVerdict::Broken,
                hold: false,
            })
            &&& !pipes ==> next(fresh, CallEvent::Dropped, thread).1 is Sleep
        }),
{
}

/// What the jitter is drawn from tells any two threads apart at every attempt.
pub proof fn law_the_jitter_tells_threads_apart(one: u64, other: u64, attempt: u32)
    requires
        one != other,
    ensures
        jitter_seed(one, attempt) != jitter_seed(other, attempt),
{
    let k = (attempt as u64).wrapping_mul(0x9E37_79B9_7F4A_7C15);
    let x = one ^ k;
    let y = other ^ k;
    assert(x != y) by (bit_vector)
        requires
            one != other,
            x == one ^ k,
            y == other ^ k,
    ;
    lemma_scrambled(x, y);
}

proof fn lemma_scrambled(x: u64, y: u64)
    requires
        x != y,
    ensures
        scrambled(x) != scrambled(y),
{
    let a = x ^ (x << 13);
    let b = y ^ (y << 13);
    assert(a != b) by (bit_vector)
        requires
            x != y,
            a == x ^ (x << 13),
            b == y ^ (y << 13),
    ;
    let c = a ^ (a >> 7);
    let d = b ^ (b >> 7);
    assert(c != d) by (bit_vector)
        requires
            a != b,
            c == a ^ (a >> 7),
            d == b ^ (b >> 7),
    ;
    assert(c ^ (c << 17) != d ^ (d << 17)) by (bit_vector)
        requires
            c != d,
    ;
}

/// The length of a header is read back, and one that is longer than a frame may
/// be is refused.
pub proof fn law_a_header_is_read_back(n: u32)
    ensures
        n <= 16_777_216 ==> announced_length(big_endian(n)) == Some(n),
        n > 16_777_216 ==> announced_length(big_endian(n)) is None,
{
}

/// A thread remembers how its last call went: the failure of one that failed,
/// and nothing of earlier calls once one was answered or broke off.
pub proof fn law_the_last_call_is_remembered(failure: ClientCallFailure)
    ensures
        remembered(CallVerdict::Failed(failure)) == failure,
        remembered(CallVerdict::Answered) == ClientCallFailure::NoFailure,
        remembered(CallVerdict::Broken) == ClientCallFailure::NoFailure,
{
}

/// A process announces itself at most once, at its first contact, and only with
/// a token; the report of a bypass takes the place of the announcement.
pub proof fn law_a_process_announces_itself_once(announced: bool, token: bool, again: bool)
    ensures
        announcing(announced, token).0,
        announcing(announced, token).1 <==> token && !announced,
        !announcing(announcing(announced, token).0, again).1,
        !announcing(true, again).1,
{
}

/// The daemon took an announcement exactly where it says so; silence and any
/// other answer are a refusal.
pub proof fn law_only_an_acknowledgement_is_one(response: VfsResponse)
    ensures
        took(Some(VfsResponse::Announced)),
        !took(None),
        took(Some(response)) ==> response is Announced,
{
}

/// The delays grow from fifty milliseconds to a hundred and to two hundred, and
/// are spread evenly from a quarter below to a quarter above by the number that
/// is drawn for the thread and the attempt.
pub proof fn law_delays_are_spread_around_their_middle(attempt: u32, thread: u64)
    requires
        attempt >= 2,
    ensures
        delay(0, thread) == 38 + jitter_seed(thread, 0) as int % 25,
        delay(1, thread) == 75 + jitter_seed(thread, 1) as int % 51,
        delay(attempt, thread) == 150 + jitter_seed(thread, attempt) as int % 101,
{
}

} // verus!
