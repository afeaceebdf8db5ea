//! The export's own account of itself, as another process reads it.

use vstd::prelude::*;

use crate::text;
use crate::text::{chars_eq, chars_of, decode_lossy};
use crate::vfs_path::VfsPath;

verus! {

/// The name of the status document.
pub const STATUS_FILE: &'static str = "nfs.status.json";

/// A published change.
#[derive(Debug)]
pub struct Admission {
    pub change_id: String,
    pub branch: String,
    pub file_count: u64,
    pub paths: Vec<VfsPath>,
}

/// How the write side of a workspace stands.
#[derive(Debug)]
pub enum WriteHealth {
    /// Everything written is graph truth.
    Settled { last: Option<Admission> },
    /// These paths are not graph truth yet.
    Pending { paths: Vec<VfsPath> },
    /// These paths could not be made graph truth.
    Degraded { paths: Vec<VfsPath>, reason: String },
}

/// One workspace's write side, as the export sees it.
#[derive(Debug)]
pub struct WorkspaceStatus {
    /// The name it is exported under.
    pub name: String,
    /// `settled`, `pending`, `degraded` or `read-only`.
    pub state: String,
    /// Paths written through the mount that are not graph truth yet.
    pub unadmitted: Vec<String>,
    /// Why it is degraded or read-only.
    pub reason: Option<String>,
    /// The change that the last admission published.
    pub last_change_id: Option<String>,
}

/// A workspace's write side, over character sequences.
pub struct Workspace {
    pub name: Seq<char>,
    pub state: Seq<char>,
    pub unadmitted: Seq<Seq<char>>,
    pub reason: Option<Seq<char>>,
    pub last_change_id: Option<Seq<char>>,
}

impl View for WorkspaceStatus {
    type V = Workspace;

    open spec fn view(&self) -> Workspace {
        Workspace {
            name: self.name@,
            state: self.state@,
            unadmitted: text::texts(self.unadmitted@),
            reason: text::opt_text(self.reason),
            last_change_id: text::opt_text(self.last_change_id),
        }
    }
}

/// The workspaces, over character sequences.
pub open spec fn workspace_views(list: Seq<WorkspaceStatus>) -> Seq<Workspace> {
    Seq::new(list.len(), |i: int| list[i]@)
}

/// What a running export publishes about itself.
#[derive(Debug)]
pub struct ExportStatus {
    /// The port it listens on.
    pub port: u16,
    /// Where it is mounted.
    pub mount_point: Vec<u8>,
    /// Whether writes are admitted.
    pub writable: bool,
    /// Seconds since the epoch when this was written.
    pub written_at: u64,
    /// One entry for each workspace with a write side, or a refusal.
    pub workspaces: Vec<WorkspaceStatus>,
}

// ── One workspace ───────────────────────────────────────────────────────

/// The texts of paths.
pub open spec fn path_texts(paths: Seq<VfsPath>) -> Seq<Seq<char>> {
    Seq::new(paths.len(), |i: int| text::lossy_text(paths[i]@))
}

/// What is reported of a workspace with a write side.
pub open spec fn reported(name: Seq<char>, health: WriteHealth) -> Workspace {
    match health {
        WriteHealth::Settled { last } => Workspace {
            name,
            state: "settled"@,
            unadmitted: Seq::empty(),
            reason: None,
            last_change_id: match last {
                Some(admission) => Some(admission.change_id@),
                None => None,
            },
        },
        WriteHealth::Pending { paths } => Workspace {
            name,
            state: "pending"@,
            unadmitted: path_texts(paths@),
            reason: None,
            last_change_id: None,
        },
        WriteHealth::Degraded { paths, reason } => Workspace {
            name,
            state: "degraded"@,
            unadmitted: path_texts(paths@),
            reason: Some(reason@),
            last_change_id: None,
        },
    }
}

/// What is reported of a workspace that could not be opened for writing.
pub open spec fn refused(name: Seq<char>, reason: Seq<char>) -> Workspace {
    Workspace {
        name,
        state: "read-only"@,
        unadmitted: Seq::empty(),
        reason: Some(reason),
        last_change_id: None,
    }
}

/// The texts of paths.
fn name_paths(paths: &Vec<VfsPath>) -> (r: Vec<String>)
    ensures
        text::texts(r@) == path_texts(paths@),
{
    let mut out: Vec<String> = Vec::new();
    let mut i: usize = 0;
    while i < paths.len()
        invariant
            i <= paths@.len(),
            text::texts(out@) == path_texts(paths@.subrange(0, i as int)),
        decreases paths@.len() - i,
    {
        let ghost before = text::texts(out@);
        let name = decode_lossy(paths[i].as_bytes());
        let ghost added = name@;
        out.push(name);
        assert(text::texts(out@) =~= before.push(added));
        assert(path_texts(paths@.subrange(0, i + 1)) =~= path_texts(
            paths@.subrange(0, i as int),
        ).push(added));
        i = i + 1;
    }
    assert(paths@.subrange(0, paths@.len() as int) =~= paths@);
    out
}

/// Reports a workspace with a write side.
fn report(name: String, health: &WriteHealth) -> (r: WorkspaceStatus)
    ensures
        r@ == reported(name@, *health),
{
    let unadmitted: Vec<String> = match health {
        WriteHealth::Settled { .. } => Vec::new(),
        WriteHealth::Pending { paths } => name_paths(paths),
        WriteHealth::Degraded { paths, .. } => name_paths(paths),
    };
    let (state, reason, last_change_id): (String, Option<String>, Option<String>) = match health {
        WriteHealth::Settled { last } => (
            "settled".to_owned(),
            None,
            match last {
                Some(admission) => Some(admission.change_id.clone()),
                None => None,
            },
        ),
        WriteHealth::Pending { .. } => ("pending".to_owned(), None, None),
        WriteHealth::Degraded { reason, .. } => (
            "degraded".to_owned(),
            Some(reason.clone()),
            None,
        ),
    };
    assert(text::texts(unadmitted@) =~= reported(name@, *health).unadmitted);
    WorkspaceStatus { name, state, unadmitted, reason, last_change_id }
}

/// Reports a workspace that could not be opened for writing.
fn report_refusal(name: String, reason: String) -> (r: WorkspaceStatus)
    ensures
        r@ == refused(name@, reason@),
{
    let unadmitted: Vec<String> = Vec::new();
    assert(text::texts(unadmitted@) =~= Seq::<Seq<char>>::empty());
    WorkspaceStatus {
        name,
        state: "read-only".to_owned(),
        unadmitted,
        reason: Some(reason),
        last_change_id: None,
    }
}

// ── Order ───────────────────────────────────────────────────────────────

/// Whether bytes come before others, or are the same.
pub open spec fn bytes_ordered(a: Seq<u8>, b: Seq<u8>) -> bool
    decreases a.len(),
{
    if a.len() == 0 {
        true
    } else if b.len() == 0 {
        false
    } else if a[0] != b[0] {
        a[0] < b[0]
    } else {
        bytes_ordered(a.drop_first(), b.drop_first())
    }
}

/// Whether a name comes before another, or is the same: by the bytes of their
/// UTF-8 forms.
pub open spec fn ordered(a: Seq<char>, b: Seq<char>) -> bool {
    bytes_ordered(vstd::utf8::encode_utf8(a), vstd::utf8::encode_utf8(b))
}

/// Whether a name comes before another, or is the same.
pub fn name_ordered(a: &str, b: &str) -> (r: bool)
    ensures
        r == ordered(a@, b@),
{
    let x = a.as_bytes();
    let y = b.as_bytes();
    let mut i: usize = 0;
    assert(x@.subrange(0, x@.len() as int) =~= x@);
    assert(y@.subrange(0, y@.len() as int) =~= y@);
    while i < x.len() && i < y.len() && x[i] == y[i]
        invariant
            i <= x@.len(),
            i <= y@.len(),
            x@ == vstd::utf8::encode_utf8(a@),
            y@ == vstd::utf8::encode_utf8(b@),
            ordered(a@, b@) == bytes_ordered(
                x@.subrange(i as int, x@.len() as int),
                y@.subrange(i as int, y@.len() as int),
            ),
        decreases x@.len() - i,
    {
        assert(x@.subrange(i as int, x@.len() as int).drop_first() =~= x@.subrange(
            i + 1,
            x@.len() as int,
        ));
        assert(y@.subrange(i as int, y@.len() as int).drop_first() =~= y@.subrange(
            i + 1,
            y@.len() as int,
        ));
        i = i + 1;
    }
    if i == x.len() {
        true
    } else if i == y.len() {
        false
    } else {
        x[i] < y[i]
    }
}

/// Where a workspace of this name goes in an ordered list: behind every one
/// that does not come after it.
pub open spec fn place(list: Seq<Workspace>, name: Seq<char>) -> int
    decreases list.len(),
{
    if list.len() == 0 || ordered(list.last().name, name) {
        list.len() as int
    } else {
        place(list.drop_last(), name)
    }
}

/// The workspaces in the order of their names; those of one name stay in the
/// order in which they were.
pub open spec fn in_order(list: Seq<Workspace>) -> Seq<Workspace>
    decreases list.len(),
{
    if list.len() == 0 {
        Seq::empty()
    } else {
        let before = in_order(list.drop_last());
        before.insert(place(before, list.last().name), list.last())
    }
}

/// Puts a workspace where it belongs in an ordered list.
fn put_in_order(list: &mut Vec<WorkspaceStatus>, status: WorkspaceStatus)
    ensures
        workspace_views(final(list)@) == workspace_views(old(list)@).insert(
            place(workspace_views(old(list)@), status@.name),
            status@,
        ),
{
    let ghost before = workspace_views(list@);
    let ghost name = status@.name;
    let mut at: usize = list.len();
    assert(before.subrange(0, before.len() as int) =~= before);
    while at > 0 && !name_ordered(list[at - 1].name.as_str(), status.name.as_str())
        invariant
            at <= list@.len(),
            before == workspace_views(list@),
            name == status@.name,
            place(before, name) == place(before.subrange(0, at as int), name),
        decreases at,
    {
        let ghost part = before.subrange(0, at as int);
        assert(part.last() == before[at - 1]);
        assert(part.drop_last() =~= before.subrange(0, at - 1));
        at = at - 1;
    }
    assert(at > 0 ==> before.subrange(0, at as int).last() == before[at - 1]);
    assert(place(before, name) == at);
    let ghost held = status@;
    list.insert(at, status);
    assert(workspace_views(list@) =~= before.insert(at as int, held));
}

// ── The document ────────────────────────────────────────────────────────

/// What is reported of every workspace, before it is put in order: the ones with
/// a write side, then the refused ones.
pub open spec fn all_reported(
    health: Seq<(String, WriteHealth)>,
    refusals: Seq<(String, String)>,
) -> Seq<Workspace> {
    Seq::new(health.len(), |i: int| reported(health[i].0@, health[i].1)) + Seq::new(
        refusals.len(),
        |i: int| refused(refusals[i].0@, refusals[i].1@),
    )
}

impl ExportStatus {
    /// Builds the document. A workspace that could not be opened for writing is
    /// what a reader most needs to see, so it is listed like the others.
    pub fn build(
        port: u16,
        mount_point: Vec<u8>,
        writable: bool,
        health: &Vec<(String, WriteHealth)>,
        refusals: &Vec<(String, String)>,
        now: u64,
    ) -> (r: ExportStatus)
        ensures
            r.port == port,
            r.mount_point@ == mount_point@,
            r.writable == writable,
            r.written_at == now,
            workspace_views(r.workspaces@) == in_order(all_reported(health@, refusals@)),
    {
        let ghost all = all_reported(health@, refusals@);
        let mut workspaces: Vec<WorkspaceStatus> = Vec::new();
        let mut i: usize = 0;
        assert(workspace_views(workspaces@) =~= in_order(all.subrange(0, 0)));
        while i < health.len()
            invariant
                i <= health@.len(),
                all == all_reported(health@, refusals@),
                workspace_views(workspaces@) == in_order(all.subrange(0, i as int)),
            decreases health@.len() - i,
        {
            let status = report(health[i].0.clone(), &health[i].1);
            assert(all.subrange(0, i + 1).drop_last() =~= all.subrange(0, i as int));
            assert(all.subrange(0, i + 1).last() == all[i as int]);
            assert(status@ == all[i as int]);
            put_in_order(&mut workspaces, status);
            i = i + 1;
        }
        let mut j: usize = 0;
        while j < refusals.len()
            invariant
                j <= refusals@.len(),
                all == all_reported(health@, refusals@),
                workspace_views(workspaces@) == in_order(
                    all.subrange(0, health@.len() + j),
                ),
            decreases refusals@.len() - j,
        {
            let status = report_refusal(refusals[j].0.clone(), refusals[j].1.clone());
            let ghost n = health@.len() + j;
            assert(all.subrange(0, n + 1).drop_last() =~= all.subrange(0, n));
            assert(all.subrange(0, n + 1).last() == all[n]);
            assert(status@ == all[n]);
            put_in_order(&mut workspaces, status);
            j = j + 1;
        }
        assert(all.subrange(0, all.len() as int) =~= all);
        ExportStatus { port, mount_point, writable, written_at: now, workspaces }
    }

    /// Whether some workspace is in this state.
    fn any_in_state(&self, state: &str) -> (r: bool)
        ensures
            r == some_in(workspace_views(self.workspaces@), state@),
    {
        let wanted = chars_of(state);
        let ghost all = workspace_views(self.workspaces@);
        let mut i: usize = 0;
        while i < self.workspaces.len()
            invariant
                i <= self.workspaces@.len(),
                wanted@ == state@,
                all == workspace_views(self.workspaces@),
                forall|j: int| 0 <= j < i ==> (#[trigger] all[j]).state != state@,
            decreases self.workspaces@.len() - i,
        {
            let held = chars_of(self.workspaces[i].state.as_str());
            assert(all[i as int].state == held@);
            if chars_eq(held.as_slice(), wanted.as_slice()) {
                return true;
            }
            i = i + 1;
        }
        false
    }

    /// The word that a status line begins with. The worst workspace decides.
    pub fn state(&self) -> (r: &'static str)
        ensures
            r@ == overall(self.writable, workspace_views(self.workspaces@)),
    {
        if !self.writable {
            "read-only"
        } else if self.any_in_state("degraded") {
            "degraded"
        } else if self.any_in_state("read-only") {
            "degraded"
        } else if self.any_in_state("pending") {
            "pending"
        } else {
            "writable"
        }
    }
}

/// Whether some workspace is in this state.
pub open spec fn some_in(list: Seq<Workspace>, state: Seq<char>) -> bool {
    exists|i: int| 0 <= i < list.len() && (#[trigger] list[i]).state == state
}

/// The state of an export: the worst of its workspaces decides.
pub open spec fn overall(writable: bool, list: Seq<Workspace>) -> Seq<char> {
    if !writable {
        "read-only"@
    } else if some_in(list, "degraded"@) || some_in(list, "read-only"@) {
        "degraded"@
    } else if some_in(list, "pending"@) {
        "pending"@
    } else {
        "writable"@
    }
}

// ── Laws ────────────────────────────────────────────────────────────────

proof fn lemma_place(list: Seq<Workspace>, name: Seq<char>)
    ensures
        0 <= place(list, name) <= list.len(),
    decreases list.len(),
{
    if list.len() > 0 && !ordered(list.last().name, name) {
        lemma_place(list.drop_last(), name);
    }
}

/// Putting the workspaces in order loses none and adds none.
pub proof fn law_order_keeps_every_workspace(list: Seq<Workspace>)
    ensures
        in_order(list).to_multiset() == list.to_multiset(),
        in_order(list).len() == list.len(),
    decreases list.len(),
{
    broadcast use vstd::seq_lib::group_to_multiset_ensures;

    if list.len() > 0 {
        let front = list.drop_last();
        let before = in_order(front);
        law_order_keeps_every_workspace(front);
        lemma_place(before, list.last().name);
        let at = place(before, list.last().name);
        assert(list =~= front.push(list.last()));
        assert(before.insert(at, list.last()).to_multiset() =~= before.to_multiset().insert(
            list.last(),
        ));
    } else {
        assert(in_order(list) =~= list);
    }
}

proof fn lemma_bytes_ordered(a: Seq<u8>, b: Seq<u8>, c: Seq<u8>)
    ensures
        bytes_ordered(a, b) || bytes_ordered(b, a),
        bytes_ordered(a, b) && bytes_ordered(b, c) ==> bytes_ordered(a, c),
    decreases a.len(),
{
    if a.len() > 0 && b.len() > 0 {
        if c.len() > 0 {
            lemma_bytes_ordered(a.drop_first(), b.drop_first(), c.drop_first());
        } else {
            lemma_bytes_ordered(a.drop_first(), b.drop_first(), c);
        }
    }
}

/// Whether each workspace comes before the ones behind it, or has the same name.
pub open spec fn all_ordered(list: Seq<Workspace>) -> bool {
    forall|i: int, j: int|
        0 <= i <= j < list.len() ==> ordered((#[trigger] list[i]).name, (#[trigger] list[j]).name)
}

proof fn lemma_place_splits(list: Seq<Workspace>, name: Seq<char>)
    requires
        all_ordered(list),
    ensures
        0 <= place(list, name) <= list.len(),
        forall|i: int| 0 <= i < place(list, name) ==> ordered((#[trigger] list[i]).name, name),
        forall|i: int|
            place(list, name) <= i < list.len() ==> ordered(name, (#[trigger] list[i]).name),
    decreases list.len(),
{
    lemma_place(list, name);
    if list.len() > 0 {
        let last = vstd::utf8::encode_utf8(list.last().name);
        let mine = vstd::utf8::encode_utf8(name);
        if ordered(list.last().name, name) {
            assert forall|i: int| 0 <= i < list.len() implies ordered(
                (#[trigger] list[i]).name,
                name,
            ) by {
                assert(ordered(list[i].name, list[list.len() - 1].name));
                lemma_bytes_ordered(vstd::utf8::encode_utf8(list[i].name), last, mine);
            }
        } else {
            let front = list.drop_last();
            assert(all_ordered(front)) by {
                assert forall|i: int, j: int| 0 <= i <= j < front.len() implies ordered(
                    (#[trigger] front[i]).name,
                    (#[trigger] front[j]).name,
                ) by {
                    assert(front[i] == list[i] && front[j] == list[j]);
                }
            }
            lemma_place_splits(front, name);
            lemma_bytes_ordered(last, mine, mine);
            assert forall|i: int| 0 <= i < place(list, name) implies ordered(
                (#[trigger] list[i]).name,
                name,
            ) by {
                lemma_place(front, name);
                assert(front[i] == list[i]);
            }
            assert forall|i: int| place(list, name) <= i < list.len() implies ordered(
                name,
                (#[trigger] list[i]).name,
            ) by {
                if i < front.len() {
                    assert(front[i] == list[i]);
                }
            }
        }
    }
}

/// A status lists its workspaces in the order of their names.
pub proof fn law_workspaces_are_listed_in_order(list: Seq<Workspace>)
    ensures
        all_ordered(in_order(list)),
    decreases list.len(),
{
    if list.len() > 0 {
        let front = list.drop_last();
        law_workspaces_are_listed_in_order(front);
        let before = in_order(front);
        let name = list.last().name;
        lemma_place_splits(before, name);
        let at = place(before, name);
        let after = in_order(list);
        assert forall|i: int, j: int| 0 <= i <= j < after.len() implies ordered(
            (#[trigger] after[i]).name,
            (#[trigger] after[j]).name,
        ) by {
            let a = vstd::utf8::encode_utf8(after[i].name);
            lemma_bytes_ordered(a, a, a);
            if i < at {
                assert(after[i] == before[i]);
            } else if i > at {
                assert(after[i] == before[i - 1]);
            }
            if j < at {
                assert(after[j] == before[j]);
            } else if j > at {
                assert(after[j] == before[j - 1]);
            }
        }
    }
}

/// An export that reports itself writable admits writes, and none of its
/// workspaces waits, is stuck or was refused.
pub proof fn law_writable_means_every_workspace_is_settled(writable: bool, list: Seq<Workspace>)
    requires
        overall(writable, list) == "writable"@,
    ensures
        writable,
        !some_in(list, "degraded"@),
        !some_in(list, "read-only"@),
        !some_in(list, "pending"@),
{
    reveal_strlit("writable");
    reveal_strlit("degraded");
    reveal_strlit("read-only");
    reveal_strlit("pending");
    assert("writable"@[0] != "degraded"@[0]);
    assert("writable"@[0] != "read-only"@[0]);
    assert("writable"@[0] != "pending"@[0]);
}

/// What is reported of a workspace is how its write side stands: settled with
/// the change that was last published, or pending or degraded with the paths
/// that are not graph truth yet, in their order, and the reason; a workspace
/// that was refused is read-only, with the reason.
pub proof fn law_a_report_tells_how_the_write_side_stands(
    name: Seq<char>,
    health: WriteHealth,
    reason: Seq<char>,
)
    ensures
        ({
            let r = reported(name, health);
            &&& r.name == name
            &&& health is Settled <==> r.state == "settled"@
            &&& health is Pending <==> r.state == "pending"@
            &&& health is Degraded <==> r.state == "degraded"@
            &&& health matches WriteHealth::Settled { last } ==> r.unadmitted.len() == 0
                && r.reason is None && (last is None ==> r.last_change_id is None) && (
            last matches Some(admission) ==> r.last_change_id == Some(admission.change_id@))
            &&& health matches WriteHealth::Pending { paths } ==> {
                &&& r.unadmitted.len() == paths@.len()
                &&& forall|i: int|
                    0 <= i < paths@.len() ==> #[trigger] r.unadmitted[i] == text::lossy_text(
                        paths@[i]@,
                    )
                &&& r.reason is None && r.last_change_id is None
            }
            &&& health matches WriteHealth::Degraded { paths, reason } ==> {
                &&& r.unadmitted.len() == paths@.len()
                &&& forall|i: int|
                    0 <= i < paths@.len() ==> #[trigger] r.unadmitted[i] == text::lossy_text(
                        paths@[i]@,
                    )
                &&& r.reason == Some(reason@) && r.last_change_id is None
            }
        }),
        refused(name, reason).name == name && refused(name, reason).state == "read-only"@
            && refused(name, reason).reason == Some(reason),
        refused(name, reason).unadmitted.len() == 0,
{
    reveal_strlit("settled");
    reveal_strlit("pending");
    reveal_strlit("degraded");
    assert("settled"@[0] != "pending"@[0] && "settled"@[0] != "degraded"@[0] && "pending"@[0]
        != "degraded"@[0]);
}

/// The worst workspace decides what an export says of itself: one that is
/// degraded or was refused makes it degraded, else one that waits makes it
/// pending. A read-only export says that it is, whatever its workspaces say.
pub proof fn law_the_worst_workspace_decides(writable: bool, list: Seq<Workspace>, i: int)
    requires
        0 <= i < list.len(),
    ensures
        overall(false, list) == "read-only"@,
        list[i].state == "degraded"@ || list[i].state == "read-only"@ ==> overall(true, list)
            == "degraded"@,
        list[i].state == "pending"@ ==> overall(true, list) == "pending"@ || overall(true, list)
            == "degraded"@,
        list[i].state == "pending"@ && (forall|j: int|
            0 <= j < list.len() ==> #[trigger] list[j].state != "degraded"@ && list[j].state
                != "read-only"@) ==> overall(true, list) == "pending"@,
        (forall|j: int| 0 <= j < list.len() ==> #[trigger] list[j].state == "settled"@) ==> overall(
            true,
            list,
        ) == "writable"@,
{
    reveal_strlit("settled");
    reveal_strlit("pending");
    reveal_strlit("degraded");
    reveal_strlit("read-only");
    assert("settled"@[0] == 's' && "pending"@[0] == 'p' && "degraded"@[0] == 'd' && "read-only"@[0]
        == 'r');
}

/// Every workspace with a write side is listed, and every refused one behind
/// them, before they are put in order.
pub proof fn law_every_workspace_is_reported(
    health: Seq<(String, WriteHealth)>,
    refusals: Seq<(String, String)>,
    i: int,
)
    ensures
        all_reported(health, refusals).len() == health.len() + refusals.len(),
        0 <= i < health.len() ==> all_reported(health, refusals)[i] == reported(
            health[i].0@,
            health[i].1,
        ),
        0 <= i < refusals.len() ==> all_reported(health, refusals)[health.len() + i] == refused(
            refusals[i].0@,
            refusals[i].1@,
        ),
{
}

} // verus!
