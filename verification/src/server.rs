//! The life of an export server: its configuration, its state files, and when
//! staged writes are admitted.

use vstd::prelude::*;
use vstd::string::StringExecFns;

use crate::bytes;
use crate::bytes::to_vec;
use crate::pathmap;
use crate::pathmap::join_at_path;
use crate::text;
use crate::text::{
    chars_of, find_char, parse_trimmed, push_digits, split_lines, string_of, sub_chars, trim,
};

verus! {

/// The file that asks a running export to admit its writes now.
pub const SYNC_REQUEST_FILE: &'static str = "nfs.sync";

/// The file that holds what came of it.
pub const SYNC_RESULT_FILE: &'static str = "nfs.sync.result";

// ── Configuration ───────────────────────────────────────────────────────

/// How an export is served.
#[derive(Debug)]
pub struct NfsServerConfig {
    /// The port to listen on; zero picks a free one.
    pub port: u16,
    /// The address to listen on.
    pub bind_addr: String,
    /// Where the export is mounted.
    pub mount_point: Vec<u8>,
    /// Where the state files are kept.
    pub state_dir: Vec<u8>,
    /// Whether writes are admitted.
    pub writable: bool,
    /// How long writes must rest before they are admitted, in nanoseconds.
    pub admit_debounce: u128,
}

/// The bytes of an ASCII literal.
fn literal(name: &str) -> (r: Vec<u8>)
    requires
        name.is_ascii(),
    ensures
        r@ == bytes::ascii(name@),
{
    let r = to_vec(name.as_bytes());
    assert(r@ =~= bytes::ascii(name@));
    r
}

/// The directory that holds the state files, below the home directory.
pub open spec fn kin_dir(home: Option<Seq<u8>>) -> Seq<u8> {
    pathmap::joined_at(
        match home {
            Some(h) => h,
            None => bytes::ascii("."@),
        },
        bytes::ascii(".kin"@),
    )
}

/// Where the export is mounted.
pub open spec fn mount_place(home: Option<Seq<u8>>) -> Seq<u8> {
    match home {
        Some(h) => pathmap::joined_at(h, bytes::ascii("Kin"@)),
        None => bytes::ascii("/tmp/kin-mount"@),
    }
}

/// The home directory, where there is one.
pub open spec fn opt_home(home: Option<&[u8]>) -> Option<Seq<u8>> {
    match home {
        Some(h) => Some(h@),
        None => None,
    }
}

/// The directory that holds the state files, below the home directory.
pub fn default_kin_dir(home: Option<&[u8]>) -> (r: Vec<u8>)
    ensures
        r@ == kin_dir(opt_home(home)),
        r@ == pathmap::joined_at(
            match home {
                Some(h) => h@,
                None => bytes::ascii("."@),
            },
            bytes::ascii(".kin"@),
        ),
{
    proof {
        reveal_strlit(".");
        reveal_strlit(".kin");
    }
    let kin = literal(".kin");
    match home {
        Some(h) => join_at_path(h, kin.as_slice()),
        None => join_at_path(literal(".").as_slice(), kin.as_slice()),
    }
}

/// Where the export is mounted: in the home directory, so that no privilege is
/// needed.
pub fn default_mount_point(home: Option<&[u8]>) -> (r: Vec<u8>)
    ensures
        r@ == mount_place(opt_home(home)),
        r@ == match home {
            Some(h) => pathmap::joined_at(h@, bytes::ascii("Kin"@)),
            None => bytes::ascii("/tmp/kin-mount"@),
        },
{
    proof {
        reveal_strlit("Kin");
        reveal_strlit("/tmp/kin-mount");
    }
    match home {
        Some(h) => join_at_path(h, literal("Kin").as_slice()),
        None => literal("/tmp/kin-mount"),
    }
}

impl NfsServerConfig {
    /// The configuration unless told otherwise: local, and read-only, for no
    /// repository was offered to be written to.
    pub fn default_for(home: Option<&[u8]>, debounce: u128) -> (r: NfsServerConfig)
        ensures
            r.mount_point@ == mount_place(opt_home(home)),
            r.state_dir@ == kin_dir(opt_home(home)),
            r.port == 0,
            r.bind_addr@ == "127.0.0.1"@,
            r.mount_point@ == match home {
                Some(h) => pathmap::joined_at(h@, bytes::ascii("Kin"@)),
                None => bytes::ascii("/tmp/kin-mount"@),
            },
            r.state_dir@ == pathmap::joined_at(
                match home {
                    Some(h) => h@,
                    None => bytes::ascii("."@),
                },
                bytes::ascii(".kin"@),
            ),
            !r.writable,
            r.admit_debounce == debounce,
    {
        NfsServerConfig {
            port: 0,
            bind_addr: "127.0.0.1".to_owned(),
            mount_point: default_mount_point(home),
            state_dir: default_kin_dir(home),
            writable: false,
            admit_debounce: debounce,
        }
    }

    /// The address and port to listen on.
    pub fn bind_string(&self) -> (r: String)
        ensures
            r@ == self.bind_addr@ + ":"@ + text::digits(self.port as nat),
    {
        let mut out = self.bind_addr.clone();
        out.append(":");
        push_digits(&mut out, self.port as u64);
        out
    }
}

// ── State files ─────────────────────────────────────────────────────────

/// What a state file that holds a number holds.
pub fn state_number(number: u64) -> (r: String)
    ensures
        r@ == text::digits(number as nat),
{
    let mut out = String::new();
    push_digits(&mut out, number);
    assert(out@ =~= text::digits(number as nat));
    out
}

/// The number in a state file, where there is one and it is no more than `max`.
pub open spec fn number_in(contents: Option<Seq<char>>, max: nat) -> Option<nat> {
    match contents {
        Some(c) => text::parsed(text::trimmed(c), max),
        None => None,
    }
}

/// The port in the state file, where there is one.
pub fn read_port(contents: Option<&str>) -> (r: Option<u16>)
    ensures
        number_in(text::opt_str(contents), 65535) == match r {
            Some(port) => Some(port as nat),
            None => None,
        },
        match contents {
            Some(c) => match r {
                Some(port) => text::parsed(text::trimmed(c@), 65535) == Some(port as nat),
                None => text::parsed(text::trimmed(c@), 65535) is None,
            },
            None => r is None,
        },
{
    match contents {
        Some(c) => match parse_trimmed(c, 65535) {
            Some(port) => Some(port as u16),
            None => None,
        },
        None => None,
    }
}

/// The process in the state file, where there is one.
pub fn read_pid(contents: Option<&str>) -> (r: Option<u32>)
    ensures
        number_in(text::opt_str(contents), 0xffff_ffff) == match r {
            Some(pid) => Some(pid as nat),
            None => None,
        },
        match contents {
            Some(c) => match r {
                Some(pid) => text::parsed(text::trimmed(c@), 0xffff_ffff) == Some(pid as nat),
                None => text::parsed(text::trimmed(c@), 0xffff_ffff) is None,
            },
            None => r is None,
        },
{
    match contents {
        Some(c) => match parse_trimmed(c, 0xffff_ffff) {
            Some(pid) => Some(pid as u32),
            None => None,
        },
        None => None,
    }
}

// ── Admission ───────────────────────────────────────────────────────────

/// The shortest time between two looks at the staged writes, in nanoseconds.
pub const MIN_TICK: u128 = 100_000_000;

/// The time between two looks at the staged writes.
pub open spec fn tick(debounce: u128) -> u128 {
    if debounce / 4 >= MIN_TICK {
        debounce / 4
    } else {
        MIN_TICK
    }
}

/// The time between two looks at the staged writes: several in each window, so
/// that they are admitted soon after it closes.
pub fn admission_tick(debounce: u128) -> (r: u128)
    ensures
        r == tick(debounce),
        r == if debounce / 4 >= MIN_TICK {
            debounce / 4
        } else {
            MIN_TICK
        },
{
    if debounce / 4 >= MIN_TICK {
        debounce / 4
    } else {
        MIN_TICK
    }
}

/// What is done at a look at the staged writes, before the status is published.
#[derive(Debug, Clone, Copy, PartialEq, Eq, Structural)]
pub enum TickAction {
    /// Nothing: the export takes no writes.
    Rest,
    /// Admit everything, and publish what came of it.
    AdmitNow,
    /// Admit what has rested long enough.
    AdmitDue,
}

/// What is done at a look at the staged writes.
pub open spec fn ticked(writable: bool, sync_requested: bool) -> TickAction {
    if !writable {
        TickAction::Rest
    } else if sync_requested {
        TickAction::AdmitNow
    } else {
        TickAction::AdmitDue
    }
}

/// What is done at a look at the staged writes. Whoever asked for them to be
/// admitted does not wait for the window.
pub fn tick_action(writable: bool, sync_requested: bool) -> (r: TickAction)
    ensures
        r == ticked(writable, sync_requested),
        r == if !writable {
            TickAction::Rest
        } else if sync_requested {
            TickAction::AdmitNow
        } else {
            TickAction::AdmitDue
        },
{
    if !writable {
        TickAction::Rest
    } else if sync_requested {
        TickAction::AdmitNow
    } else {
        TickAction::AdmitDue
    }
}

/// Whether staged writes are admitted before the server stops: it is the last
/// chance to make them graph truth.
pub fn admits_before_shutdown(writable: bool) -> (r: bool)
    ensures
        r == writable,
{
    writable
}

/// The names whose writes have rested long enough.
pub open spec fn due_names(names: Seq<Seq<char>>, due: Seq<bool>) -> Seq<Seq<char>>
    decreases names.len(),
{
    if names.len() == 0 {
        Seq::empty()
    } else if due[names.len() - 1] {
        due_names(names.drop_last(), due).push(names.last())
    } else {
        due_names(names.drop_last(), due)
    }
}

/// The workspaces to admit at a tick, out of those that take writes; `due` says
/// of each of them whether its window has closed.
pub fn admit_due(names: &Vec<String>, due: &Vec<bool>) -> (r: Vec<String>)
    requires
        names@.len() == due@.len(),
    ensures
        text::texts(r@) == due_names(text::texts(names@), due@),
{
    let ghost all = text::texts(names@);
    let mut out: Vec<String> = Vec::new();
    let mut i: usize = 0;
    assert(text::texts(out@) =~= due_names(all.subrange(0, 0), due@));
    while i < names.len()
        invariant
            i <= names@.len(),
            names@.len() == due@.len(),
            all == text::texts(names@),
            text::texts(out@) == due_names(all.subrange(0, i as int), due@),
        decreases names@.len() - i,
    {
        let ghost before = text::texts(out@);
        assert(all.subrange(0, i + 1).drop_last() =~= all.subrange(0, i as int));
        assert(all.subrange(0, i + 1).last() == all[i as int]);
        if due[i] {
            out.push(names[i].clone());
            assert(text::texts(out@) =~= before.push(all[i as int]));
        }
        i = i + 1;
    }
    assert(all.subrange(0, all.len() as int) =~= all);
    out
}

/// The changes that came of admissions, with the workspace of each.
pub open spec fn changes_of(results: Seq<(String, Result<Option<String>, String>)>) -> Seq<
    (Seq<char>, Seq<char>),
>
    decreases results.len(),
{
    if results.len() == 0 {
        Seq::empty()
    } else {
        match results.last().1 {
            Ok(Some(change)) => changes_of(results.drop_last()).push(
                (results.last().0@, change@),
            ),
            _ => changes_of(results.drop_last()),
        }
    }
}

/// Pairs of texts.
pub open spec fn pair_views(pairs: Seq<(String, String)>) -> Seq<(Seq<char>, Seq<char>)> {
    Seq::new(pairs.len(), |i: int| (pairs[i].0@, pairs[i].1@))
}

/// The changes that came of admissions. Nothing staged is no change, and a
/// failure is reported elsewhere.
pub fn admitted_changes(results: &Vec<(String, Result<Option<String>, String>)>) -> (r: Vec<
    (String, String),
>)
    ensures
        pair_views(r@) == changes_of(results@),
{
    let ghost all = results@;
    let mut out: Vec<(String, String)> = Vec::new();
    let mut i: usize = 0;
    assert(pair_views(out@) =~= changes_of(all.subrange(0, 0)));
    while i < results.len()
        invariant
            i <= results@.len(),
            all == results@,
            pair_views(out@) == changes_of(all.subrange(0, i as int)),
        decreases results@.len() - i,
    {
        let ghost before = pair_views(out@);
        assert(all.subrange(0, i + 1).drop_last() =~= all.subrange(0, i as int));
        assert(all.subrange(0, i + 1).last() == all[i as int]);
        match &results[i].1 {
            Ok(Some(change)) => {
                out.push((results[i].0.clone(), change.clone()));
                assert(pair_views(out@) =~= before.push((all[i as int].0@, change@)));
            },
            _ => {},
        }
        i = i + 1;
    }
    assert(all.subrange(0, all.len() as int) =~= all);
    out
}

// ── Results of an explicit admission ────────────────────────────────────

/// What came of the admission of one workspace.
pub open spec fn outcome_line(workspace: Seq<char>, outcome: Result<Option<String>, String>) -> Seq<
    char,
> {
    match outcome {
        Ok(Some(change)) => "ok\t"@ + workspace + "\t"@ + change@,
        Ok(None) => "empty\t"@ + workspace + "\t-"@,
        Err(reason) => "error\t"@ + workspace + "\t"@ + reason@,
    }
}

/// Each line with its end.
pub open spec fn ended_lines(lines: Seq<Seq<char>>) -> Seq<char>
    decreases lines.len(),
{
    if lines.len() == 0 {
        Seq::empty()
    } else {
        ended_lines(lines.drop_last()) + lines.last() + "\n"@
    }
}

/// The lines of the outcomes.
pub open spec fn outcome_lines(results: Seq<(String, Result<Option<String>, String>)>) -> Seq<
    Seq<char>,
> {
    Seq::new(results.len(), |i: int| outcome_line(results[i].0@, results[i].1))
}

/// The document that tells what came of an explicit admission. It is never
/// empty: whoever waits for it must be able to tell that it is there.
pub open spec fn sync_document(results: Seq<(String, Result<Option<String>, String>)>) -> Seq<char> {
    if results.len() == 0 {
        "\n"@
    } else {
        ended_lines(outcome_lines(results))
    }
}

/// Renders what came of an explicit admission, one line for each workspace.
pub fn write_sync_result(results: &Vec<(String, Result<Option<String>, String>)>) -> (r: String)
    ensures
        r@ == sync_document(results@),
{
    if results.len() == 0 {
        return "\n".to_owned();
    }
    let ghost all = outcome_lines(results@);
    let mut out = String::new();
    let mut i: usize = 0;
    while i < results.len()
        invariant
            i <= results@.len(),
            all == outcome_lines(results@),
            out@ == ended_lines(all.subrange(0, i as int)),
        decreases results@.len() - i,
    {
        let ghost before = out@;
        assert(all.subrange(0, i + 1).drop_last() =~= all.subrange(0, i as int));
        assert(all.subrange(0, i + 1).last() == all[i as int]);
        match &results[i].1 {
            Ok(Some(change)) => {
                out.append("ok\t");
                out.append(results[i].0.as_str());
                out.append("\t");
                out.append(change.as_str());
            },
            Ok(None) => {
                out.append("empty\t");
                out.append(results[i].0.as_str());
                out.append("\t-");
            },
            Err(reason) => {
                out.append("error\t");
                out.append(results[i].0.as_str());
                out.append("\t");
                out.append(reason.as_str());
            },
        }
        out.append("\n");
        assert(out@ =~= before + all[i as int] + "\n"@);
        i = i + 1;
    }
    assert(all.subrange(0, all.len() as int) =~= all);
    out
}

/// One row of an answer: the state, the workspace, and the detail. What is
/// missing is filled in.
pub open spec fn row_of(line: Seq<char>) -> (Seq<char>, Seq<char>, Seq<char>) {
    let first = text::first_index(line, '\t');
    if first >= line.len() {
        (line, "?"@, ""@)
    } else {
        let rest = line.subrange(first + 1, line.len() as int);
        let second = text::first_index(rest, '\t');
        if second >= rest.len() {
            (line.subrange(0, first), rest, ""@)
        } else {
            (
                line.subrange(0, first),
                rest.subrange(0, second),
                rest.subrange(second + 1, rest.len() as int),
            )
        }
    }
}

/// The rows of an answer; blank lines are none.
pub open spec fn rows_of(lines: Seq<Seq<char>>) -> Seq<(Seq<char>, Seq<char>, Seq<char>)>
    decreases lines.len(),
{
    if lines.len() == 0 {
        Seq::empty()
    } else if text::trimmed(lines.last()).len() == 0 {
        rows_of(lines.drop_last())
    } else {
        rows_of(lines.drop_last()).push(row_of(lines.last()))
    }
}

/// The rows, over character sequences.
pub open spec fn row_views(rows: Seq<(String, String, String)>) -> Seq<
    (Seq<char>, Seq<char>, Seq<char>),
> {
    Seq::new(rows.len(), |i: int| (rows[i].0@, rows[i].1@, rows[i].2@))
}

/// Reads one row of an answer.
fn parse_row(line: &str) -> (r: (String, String, String))
    ensures
        (r.0@, r.1@, r.2@) == row_of(line@),
{
    let cs = chars_of(line);
    let first: usize = find_char(cs.as_slice(), '\t');
    if first >= cs.len() {
        return (line.to_owned(), "?".to_owned(), "".to_owned());
    }
    let state = sub_chars(cs.as_slice(), 0, first);
    let rest = sub_chars(cs.as_slice(), first + 1, cs.len());
    let second: usize = find_char(rest.as_slice(), '\t');
    if second >= rest.len() {
        return (string_of(state.as_slice()), string_of(rest.as_slice()), "".to_owned());
    }
    let workspace = sub_chars(rest.as_slice(), 0, second);
    let detail = sub_chars(rest.as_slice(), second + 1, rest.len());
    (
        string_of(state.as_slice()),
        string_of(workspace.as_slice()),
        string_of(detail.as_slice()),
    )
}

/// Reads the answer to a request for an admission: one row for each workspace.
pub fn parse_sync_result(raw: &str) -> (r: Vec<(String, String, String)>)
    ensures
        row_views(r@) == rows_of(text::lines(raw@)),
{
    let all = split_lines(raw);
    let ghost seen = text::lines(raw@);
    let mut out: Vec<(String, String, String)> = Vec::new();
    let mut i: usize = 0;
    assert(text::texts(all@).len() == all@.len());
    assert(row_views(out@) =~= rows_of(seen.subrange(0, 0)));
    while i < all.len()
        invariant
            i <= all@.len(),
            text::texts(all@) == seen,
            seen.len() == all@.len(),
            row_views(out@) == rows_of(seen.subrange(0, i as int)),
        decreases all@.len() - i,
    {
        let ghost before = row_views(out@);
        assert(seen.subrange(0, i + 1).drop_last() =~= seen.subrange(0, i as int));
        assert(seen.subrange(0, i + 1).last() == seen[i as int]);
        assert(seen[i as int] == all@[i as int]@);
        let cs = chars_of(all[i].as_str());
        let kept = trim(cs.as_slice());
        if kept.len() > 0 {
            let row = parse_row(all[i].as_str());
            let ghost added = (row.0@, row.1@, row.2@);
            out.push(row);
            assert(row_views(out@) =~= before.push(added));
        }
        i = i + 1;
    }
    assert(seen.subrange(0, seen.len() as int) =~= seen);
    out
}

/// How the wait for an answer goes on.
#[derive(Debug)]
pub enum SyncStep {
    /// This is the answer, one row for each workspace.
    Answered(Vec<(String, String, String)>),
    /// Look again a little later.
    Wait,
    /// The time is up.
    Expired,
}

/// How the wait for an answer goes on, over character sequences.
pub enum Waiting {
    Answered(Seq<(Seq<char>, Seq<char>, Seq<char>)>),
    Wait,
    Expired,
}

impl View for SyncStep {
    type V = Waiting;

    open spec fn view(&self) -> Waiting {
        match self {
            SyncStep::Answered(rows) => Waiting::Answered(row_views(rows@)),
            SyncStep::Wait => Waiting::Wait,
            SyncStep::Expired => Waiting::Expired,
        }
    }
}

/// How the wait for an answer goes on after a look.
pub open spec fn awaited_answer(answer: Option<Seq<char>>, expired: bool) -> Waiting {
    if expired {
        Waiting::Expired
    } else {
        match answer {
            Some(raw) => Waiting::Answered(rows_of(text::lines(raw))),
            None => Waiting::Wait,
        }
    }
}

/// Looks for the answer to a request for an admission; `expired` says that the
/// time was up before the look.
pub fn request_sync(answer: Option<&str>, expired: bool) -> (r: SyncStep)
    ensures
        r@ == awaited_answer(text::opt_str(answer), expired),
        if expired {
            r is Expired
        } else {
            match answer {
                Some(raw) => r matches SyncStep::Answered(rows) && row_views(rows@) == rows_of(
                    text::lines(raw@),
                ),
                None => r is Wait,
            }
        },
{
    if expired {
        return SyncStep::Expired;
    }
    match answer {
        Some(raw) => SyncStep::Answered(parse_sync_result(raw)),
        None => SyncStep::Wait,
    }
}

// ── Laws ────────────────────────────────────────────────────────────────

/// Whether a text fits in a field: no tab, no line end.
pub open spec fn fits(s: Seq<char>) -> bool {
    forall|i: int| 0 <= i < s.len() ==> (#[trigger] s[i]) != '\t' && s[i] != '\n' && s[i] != '\r'
}

/// The row that is read back of an outcome.
pub open spec fn expected_row(workspace: Seq<char>, outcome: Result<Option<String>, String>) -> (
    Seq<char>,
    Seq<char>,
    Seq<char>,
) {
    match outcome {
        Ok(Some(change)) => ("ok"@, workspace, change@),
        Ok(None) => ("empty"@, workspace, "-"@),
        Err(reason) => ("error"@, workspace, reason@),
    }
}

proof fn lemma_first_index(s: Seq<char>, c: char, n: int)
    requires
        0 <= n <= s.len(),
        n < s.len() ==> s[n] == c,
        forall|i: int| 0 <= i < n ==> (#[trigger] s[i]) != c,
    ensures
        text::first_index(s, c) == n,
    decreases n,
{
    if n > 0 {
        let rest = s.drop_first();
        assert(s[0] != c);
        assert forall|i: int| 0 <= i < n - 1 implies (#[trigger] rest[i]) != c by {
            assert(rest[i] == s[i + 1]);
        }
        lemma_first_index(rest, c, n - 1);
    }
}

/// The row of a line that was put together from three fields.
proof fn lemma_row(state: Seq<char>, workspace: Seq<char>, detail: Seq<char>)
    requires
        fits(state),
        fits(workspace),
    ensures
        row_of(state + "\t"@ + workspace + "\t"@ + detail) == (state, workspace, detail),
{
    reveal_strlit("\t");
    let line = state + "\t"@ + workspace + "\t"@ + detail;
    let first = state.len() as int;
    assert forall|i: int| 0 <= i < first implies (#[trigger] line[i]) != '\t' by {
        assert(line[i] == state[i]);
    }
    assert(line[first] == "\t"@[0]);
    lemma_first_index(line, '\t', first);
    let rest = line.subrange(first + 1, line.len() as int);
    assert(rest =~= workspace + "\t"@ + detail);
    let second = workspace.len() as int;
    assert forall|i: int| 0 <= i < second implies (#[trigger] rest[i]) != '\t' by {
        assert(rest[i] == workspace[i]);
    }
    assert(rest[second] == "\t"@[0]);
    lemma_first_index(rest, '\t', second);
    assert(line.subrange(0, first) =~= state);
    assert(rest.subrange(0, second) =~= workspace);
    assert(rest.subrange(second + 1, rest.len() as int) =~= detail);
}

/// What was said of the admission of one workspace is read back.
pub proof fn law_an_outcome_is_read_back(
    workspace: Seq<char>,
    outcome: Result<Option<String>, String>,
)
    requires
        fits(workspace),
    ensures
        row_of(outcome_line(workspace, outcome)) == expected_row(workspace, outcome),
{
    reveal_strlit("ok\t");
    reveal_strlit("empty\t");
    reveal_strlit("error\t");
    reveal_strlit("\t-");
    reveal_strlit("ok");
    reveal_strlit("empty");
    reveal_strlit("error");
    reveal_strlit("\t");
    reveal_strlit("-");
    assert("ok\t"@ =~= "ok"@ + "\t"@);
    assert("empty\t"@ =~= "empty"@ + "\t"@);
    assert("error\t"@ =~= "error"@ + "\t"@);
    assert("\t-"@ =~= "\t"@ + "-"@);
    match outcome {
        Ok(Some(change)) => {
            assert(fits("ok"@));
            lemma_row("ok"@, workspace, change@);
        },
        Ok(None) => {
            assert(fits("empty"@));
            lemma_row("empty"@, workspace, "-"@);
            assert(outcome_line(workspace, outcome) =~= "empty"@ + "\t"@ + workspace + "\t"@
                + "-"@);
        },
        Err(reason) => {
            assert(fits("error"@));
            lemma_row("error"@, workspace, reason@);
        },
    }
}

/// A line end at the end of a line ends it.
proof fn lemma_lines_append(head: Seq<char>, line: Seq<char>)
    requires
        head.len() > 0 ==> head.last() == '\n',
        fits_line(line),
    ensures
        text::lines(head + line + "\n"@) == text::lines(head).push(line),
    decreases head.len(),
{
    reveal_strlit("\n");
    let whole = head + line + "\n"@;
    if head.len() == 0 {
        let n = line.len() as int;
        assert(whole[n] == "\n"@[0]);
        assert forall|i: int| 0 <= i < n implies (#[trigger] whole[i]) != '\n' by {
            assert(whole[i] == line[i]);
        }
        lemma_first_index(whole, '\n', n);
        assert(whole.subrange(0, n) =~= line);
        assert(whole.subrange(n + 1, whole.len() as int) =~= Seq::<char>::empty());
        assert(text::lines(Seq::<char>::empty()) =~= Seq::<Seq<char>>::empty());
        assert(text::lines(head) =~= Seq::<Seq<char>>::empty());
        assert(text::without_return(line) == line);
        assert(text::lines(whole) =~= text::lines(head).push(line));
    } else {
        lemma_first_index_exists(head, '\n');
        let cut = text::first_index(head, '\n');
        assert(whole[cut] == head[cut]);
        assert forall|i: int| 0 <= i < cut implies (#[trigger] whole[i]) != '\n' by {
            assert(whole[i] == head[i]);
        }
        lemma_first_index(whole, '\n', cut);
        let rest = head.subrange(cut + 1, head.len() as int);
        assert(whole.subrange(0, cut) =~= head.subrange(0, cut));
        assert(whole.subrange(cut + 1, whole.len() as int) =~= rest + line + "\n"@);
        lemma_lines_append(rest, line);
        let top = text::without_return(head.subrange(0, cut));
        assert(seq![top] + text::lines(rest).push(line) =~= (seq![top] + text::lines(rest)).push(
            line,
        ));
    }
}

/// Where a character occurs, the first one is found.
proof fn lemma_first_index_exists(s: Seq<char>, c: char)
    requires
        s.len() > 0,
        s.last() == c,
    ensures
        0 <= text::first_index(s, c) < s.len(),
        s[text::first_index(s, c)] == c,
        forall|i: int| 0 <= i < text::first_index(s, c) ==> (#[trigger] s[i]) != c,
    decreases s.len(),
{
    if s[0] != c {
        let rest = s.drop_first();
        assert(rest.last() == c);
        lemma_first_index_exists(rest, c);
        assert forall|i: int| 0 <= i < text::first_index(s, c) implies (#[trigger] s[i]) != c by {
            if i > 0 {
                assert(s[i] == rest[i - 1]);
            }
        }
    }
}

/// Whether a text is a line: it holds no line end, and does not end as one
/// begins.
pub open spec fn fits_line(s: Seq<char>) -> bool {
    &&& forall|i: int| 0 <= i < s.len() ==> (#[trigger] s[i]) != '\n'
    &&& s.len() > 0 ==> s.last() != '\r'
}

/// Lines that were written are the lines that are read.
pub proof fn law_written_lines_are_read(written: Seq<Seq<char>>)
    requires
        forall|i: int| 0 <= i < written.len() ==> fits_line(#[trigger] written[i]),
    ensures
        text::lines(ended_lines(written)) == written,
        written.len() > 0 ==> ended_lines(written).len() > 0 && ended_lines(written).last() == '\n',
    decreases written.len(),
{
    if written.len() == 0 {
        assert(text::lines(ended_lines(written)) =~= written);
    } else {
        let front = written.drop_last();
        assert forall|i: int| 0 <= i < front.len() implies fits_line(#[trigger] front[i]) by {
            assert(front[i] == written[i]);
        }
        law_written_lines_are_read(front);
        assert(fits_line(written[written.len() - 1]));
        reveal_strlit("\n");
        lemma_lines_append(ended_lines(front), written.last());
        assert(front.push(written.last()) =~= written);
        assert(ended_lines(written).last() == "\n"@[0]);
    }
}

proof fn lemma_end_trimmed(s: Seq<char>)
    requires
        s.len() > 0,
        !text::white_space(s[0]),
    ensures
        text::end_trimmed(s).len() > 0,
    decreases s.len(),
{
    if text::white_space(s.last()) {
        assert(s.len() > 1);
        lemma_end_trimmed(s.drop_last());
    }
}

/// The line of an outcome is not blank, and fits on a line when what it is made
/// of does.
proof fn lemma_outcome_line(workspace: Seq<char>, outcome: Result<Option<String>, String>)
    ensures
        text::trimmed(outcome_line(workspace, outcome)).len() > 0,
        fits(workspace) && fits_line(expected_row(workspace, outcome).2) ==> fits_line(
            outcome_line(workspace, outcome),
        ),
{
    reveal_strlit("ok\t");
    reveal_strlit("empty\t");
    reveal_strlit("error\t");
    reveal_strlit("\t-");
    reveal_strlit("\t");
    let line = outcome_line(workspace, outcome);
    assert(line[0] == 'o' || line[0] == 'e');
    assert(text::start_trimmed(line) == line);
    lemma_end_trimmed(line);
    if fits(workspace) && fits_line(expected_row(workspace, outcome).2) {
        let (head, tail) = match outcome {
            Ok(Some(change)) => ("ok\t"@, "\t"@ + change@),
            Ok(None) => ("empty\t"@, "\t-"@),
            Err(reason) => ("error\t"@, "\t"@ + reason@),
        };
        assert(line =~= head + workspace + tail);
        assert forall|i: int| 0 <= i < tail.len() implies (#[trigger] tail[i]) != '\n' by {
            match outcome {
                Ok(Some(change)) => {
                    if i > 0 {
                        assert(tail[i] == change@[i - 1]);
                    }
                },
                Ok(None) => {},
                Err(reason) => {
                    if i > 0 {
                        assert(tail[i] == reason@[i - 1]);
                    }
                },
            }
        }
        assert forall|i: int| 0 <= i < line.len() implies (#[trigger] line[i]) != '\n' by {
            if i < head.len() {
                assert(line[i] == head[i]);
            } else if i < head.len() + workspace.len() {
                assert(line[i] == workspace[i - head.len()]);
            } else {
                assert(line[i] == tail[i - head.len() - workspace.len()]);
            }
        }
        assert(line.last() == tail.last());
        match outcome {
            Ok(Some(change)) => {
                if change@.len() > 0 {
                    assert(tail.last() == change@.last());
                }
            },
            Ok(None) => {},
            Err(reason) => {
                if reason@.len() > 0 {
                    assert(tail.last() == reason@.last());
                }
            },
        }
    }
}

proof fn lemma_rows(results: Seq<(String, Result<Option<String>, String>)>, n: int)
    requires
        0 <= n <= results.len(),
        forall|i: int| 0 <= i < results.len() ==> fits((#[trigger] results[i]).0@),
    ensures
        rows_of(outcome_lines(results).subrange(0, n)) == Seq::new(
            n as nat,
            |i: int| expected_row(results[i].0@, results[i].1),
        ),
    decreases n,
{
    let all = outcome_lines(results);
    let rows = Seq::new(n as nat, |i: int| expected_row(results[i].0@, results[i].1));
    if n == 0 {
        assert(rows_of(all.subrange(0, 0)) =~= rows);
    } else {
        lemma_rows(results, n - 1);
        assert(all.subrange(0, n).drop_last() =~= all.subrange(0, n - 1));
        assert(all.subrange(0, n).last() == all[n - 1]);
        lemma_outcome_line(results[n - 1].0@, results[n - 1].1);
        assert(fits(results[n - 1].0@));
        law_an_outcome_is_read_back(results[n - 1].0@, results[n - 1].1);
        assert(rows_of(all.subrange(0, n)) =~= rows);
    }
}

/// Whoever asked for an admission reads back what came of it, workspace by
/// workspace, as long as no name or detail holds what separates them.
pub proof fn law_an_answer_is_read_back(results: Seq<(String, Result<Option<String>, String>)>)
    requires
        forall|i: int|
            0 <= i < results.len() ==> fits((#[trigger] results[i]).0@) && fits_line(
                expected_row(results[i].0@, results[i].1).2,
            ),
    ensures
        rows_of(text::lines(sync_document(results))) == Seq::new(
            results.len(),
            |i: int| expected_row(results[i].0@, results[i].1),
        ),
{
    let all = outcome_lines(results);
    let rows = Seq::new(results.len(), |i: int| expected_row(results[i].0@, results[i].1));
    if results.len() == 0 {
        reveal_strlit("\n");
        let blank = Seq::<char>::empty();
        lemma_lines_append(blank, blank);
        assert(blank + blank + "\n"@ =~= "\n"@);
        assert(text::lines(blank) =~= Seq::<Seq<char>>::empty());
        let read = text::lines("\n"@);
        assert(read =~= seq![blank]);
        assert(text::trimmed(blank).len() == 0);
        assert(rows_of(read.drop_last()) =~= rows);
        assert(read.last() == blank);
    } else {
        assert forall|i: int| 0 <= i < all.len() implies fits_line(#[trigger] all[i]) by {
            lemma_outcome_line(results[i].0@, results[i].1);
            assert(fits(results[i].0@));
        }
        law_written_lines_are_read(all);
        lemma_rows(results, results.len() as int);
        assert(all.subrange(0, all.len() as int) =~= all);
    }
}

/// A number in a state file is read back, with or without white space around it,
/// as long as it fits what is read; anything else in the file is no number.
pub proof fn law_a_state_number_is_read_back(n: nat, max: nat, blank: Seq<char>)
    requires
        n <= max,
        forall|i: int| 0 <= i < blank.len() ==> text::white_space(#[trigger] blank[i]),
    ensures
        number_in(Some(text::digits(n)), max) == Some(n),
        number_in(Some(blank + text::digits(n) + blank), max) == Some(n),
        number_in(Some(blank), max) is None,
        number_in(None, max) is None,
{
    text::law_rendered_numbers_are_digits(n);
    text::law_rendered_numbers_parse_back(n, max);
    let ds = text::digits(n);
    assert(text::is_digit(ds[0]) && text::is_digit(ds[ds.len() - 1]));
    text::law_only_surrounding_white_space_is_trimmed(blank, ds, blank);
}

/// State files lie below the home directory, and the export is mounted in it.
/// Without a home directory the export is mounted at a place of its own.
pub proof fn law_state_lies_below_home(home: Seq<Seq<u8>>)
    requires
        home.len() > 0,
        pathmap::all_names(home),
    ensures
        kin_dir(Some(pathmap::rooted(home))) == pathmap::rooted(home.push(bytes::ascii(".kin"@))),
        mount_place(Some(pathmap::rooted(home))) == pathmap::rooted(
            home.push(bytes::ascii("Kin"@)),
        ),
        mount_place(None) == bytes::ascii("/tmp/kin-mount"@),
{
    reveal_strlit(".kin");
    reveal_strlit("Kin");
    assert(pathmap::dot().len() == 1 && pathmap::dot_dot().len() == 2);
    pathmap::lemma_joined_name(home, bytes::ascii(".kin"@));
    pathmap::lemma_joined_name(home, bytes::ascii("Kin"@));
}

/// The staged writes are looked at four times in a window, but not more often
/// than ten times a second.
pub proof fn law_the_tick_follows_the_window(debounce: u128)
    ensures
        tick(debounce) >= 100_000_000,
        debounce < 400_000_000 ==> tick(debounce) == 100_000_000,
        debounce >= 400_000_000 ==> 4 * tick(debounce) <= debounce < 4 * tick(debounce) + 4,
{
}

/// A read-only export rests; one that takes writes admits everything where it
/// was asked to, and else what has rested long enough.
pub proof fn law_a_request_does_not_wait_for_the_window(sync_requested: bool)
    ensures
        ticked(false, sync_requested) == TickAction::Rest,
        ticked(true, true) == TickAction::AdmitNow,
        ticked(true, false) == TickAction::AdmitDue,
{
}

/// Exactly the workspaces whose window has closed are admitted, in order.
pub proof fn law_due_workspaces_are_admitted_in_order(
    names: Seq<Seq<char>>,
    due: Seq<bool>,
    name: Seq<char>,
    closed: bool,
)
    requires
        names.len() == due.len(),
    ensures
        due_names(names.push(name), due.push(closed)) == if closed {
            due_names(names, due).push(name)
        } else {
            due_names(names, due)
        },
        due_names(Seq::empty(), Seq::empty()) == Seq::<Seq<char>>::empty(),
{
    assert(names.push(name).drop_last() =~= names);
    assert(names.push(name).last() == name);
    lemma_due_prefix(names, due, due.push(closed));
}

proof fn lemma_due_prefix(names: Seq<Seq<char>>, due: Seq<bool>, more: Seq<bool>)
    requires
        names.len() <= due.len() <= more.len(),
        forall|i: int| 0 <= i < due.len() ==> due[i] == more[i],
    ensures
        due_names(names, due) == due_names(names, more),
    decreases names.len(),
{
    if names.len() > 0 {
        assert(due[names.len() - 1] == more[names.len() - 1]);
        lemma_due_prefix(names.drop_last(), due, more);
    }
}

/// The changes that came of admissions are told in order, each with its own
/// workspace; a workspace with nothing staged, and one that failed, made none.
pub proof fn law_every_change_is_told_with_its_workspace(
    results: Seq<(String, Result<Option<String>, String>)>,
    workspace: String,
    outcome: Result<Option<String>, String>,
)
    ensures
        changes_of(results.push((workspace, outcome))) == match outcome {
            Ok(Some(change)) => changes_of(results).push((workspace@, change@)),
            Ok(None) => changes_of(results),
            Err(_) => changes_of(results),
        },
        changes_of(Seq::empty()) == Seq::<(Seq<char>, Seq<char>)>::empty(),
{
    assert(results.push((workspace, outcome)).drop_last() =~= results);
}

/// An answer is taken as soon as it is there, unless the time was up before; else
/// the wait goes on.
pub proof fn law_an_answer_is_waited_for_until_the_time_is_up(answer: Seq<char>)
    ensures
        awaited_answer(Some(answer), false) == Waiting::Answered(rows_of(text::lines(answer))),
        awaited_answer(None, false) == Waiting::Wait,
        awaited_answer(Some(answer), true) == Waiting::Expired,
        awaited_answer(None, true) == Waiting::Expired,
{
}

} // verus!
