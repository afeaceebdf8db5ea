//! Whether and how the shim comes up in a process.

use vstd::prelude::*;

use crate::hashing;
use crate::hashing::hash_text;
use crate::text;
use crate::text::{chars_eq, chars_of, string_of, sub_chars, text_at, trim_non_empty};

verus! {

/// The variable by which a launcher hands over its token.
pub const CANARY_ENV: &'static str = "KIN_VFS_CANARY";

/// The variable that proves to the process that the shim is loaded.
pub const INTERPOSE_ACTIVE_ENV: &'static str = "KIN_VFS_INTERPOSE_ACTIVE";

// ── Process skip policy ─────────────────────────────────────────────────

/// Whether a character separates path components on some platform.
pub open spec fn separator(c: char) -> bool {
    c == '/' || c == '\\'
}

/// What follows the last separator.
pub open spec fn basename(s: Seq<char>) -> Seq<char>
    decreases s.len(),
{
    if s.len() == 0 || separator(s.last()) {
        Seq::empty()
    } else {
        basename(s.drop_last()).push(s.last())
    }
}

/// The last component of a program name.
pub fn process_basename(argv0: &str) -> (r: String)
    ensures
        r@ == basename(argv0@),
{
    let cs = chars_of(argv0);
    let mut from: usize = cs.len();
    assert(cs@.subrange(0, cs@.len() as int) =~= cs@);
    assert(basename(cs@) =~= basename(cs@.subrange(0, from as int)) + cs@.subrange(
        from as int,
        cs@.len() as int,
    ));
    while from > 0 && cs[from - 1] != '/' && cs[from - 1] != '\\'
        invariant
            from <= cs@.len(),
            basename(cs@) == basename(cs@.subrange(0, from as int)) + cs@.subrange(
                from as int,
                cs@.len() as int,
            ),
        decreases from,
    {
        let ghost whole = cs@.subrange(0, from as int);
        assert(whole.drop_last() =~= cs@.subrange(0, from - 1));
        assert(whole.last() == cs@[from - 1]);
        assert(basename(whole) + cs@.subrange(from as int, cs@.len() as int) =~= basename(
            cs@.subrange(0, from - 1),
        ) + cs@.subrange(from - 1, cs@.len() as int));
        from = from - 1;
    }
    assert(basename(cs@.subrange(0, from as int)) =~= Seq::<char>::empty());
    assert(basename(cs@) =~= cs@.subrange(from as int, cs@.len() as int));
    let rest = sub_chars(cs.as_slice(), from, cs.len());
    string_of(rest.as_slice())
}

/// An ASCII capital letter made small.
pub open spec fn lower(c: char) -> char {
    if 'A' <= c && c <= 'Z' {
        (c as int + 0x20) as char
    } else {
        c
    }
}

/// Every ASCII capital letter made small.
pub open spec fn lowered(s: Seq<char>) -> Seq<char> {
    Seq::new(s.len(), |i: int| lower(s[i]))
}

/// An ASCII capital letter made small.
fn lower_char(c: char) -> (r: char)
    ensures
        r == lower(c),
{
    let n: u32 = c as u32;
    if 0x41 <= n && n <= 0x5a {
        let small: u8 = (n + 0x20) as u8;
        small as char
    } else {
        c
    }
}

/// Every ASCII capital letter made small.
pub fn to_lower(s: &[char]) -> (r: Vec<char>)
    ensures
        r@ == lowered(s@),
{
    let mut out: Vec<char> = Vec::new();
    let mut i: usize = 0;
    while i < s.len()
        invariant
            i <= s@.len(),
            out@ == lowered(s@.subrange(0, i as int)),
        decreases s@.len() - i,
    {
        out.push(lower_char(s[i]));
        assert(lowered(s@.subrange(0, i + 1)) =~= lowered(s@.subrange(0, i as int)).push(
            lower(s@[i as int]),
        ));
        i = i + 1;
    }
    assert(s@.subrange(0, s@.len() as int) =~= s@);
    out
}

/// A program name without the suffix that executables have on some platform.
pub open spec fn stem(s: Seq<char>) -> Seq<char> {
    if text::stands_at(s, ".exe"@, s.len() - ".exe"@.len()) {
        s.subrange(0, s.len() - ".exe"@.len())
    } else {
        s
    }
}

/// Whether a program belongs to the control plane itself: it owns the graph
/// directly and is never intercepted.
pub open spec fn kin_family(argv0: Seq<char>) -> bool {
    let name = stem(lowered(basename(argv0)));
    name == "kin"@ || name == "kin-real"@ || text::stands_at(name, "kin-"@, 0)
}

/// Whether a program belongs to the control plane itself.
pub fn is_kin_family_process(argv0: &str) -> (r: bool)
    ensures
        r == kin_family(argv0@),
{
    let base = process_basename(argv0);
    let cs = chars_of(base.as_str());
    let name = to_lower(cs.as_slice());
    let suffix = chars_of(".exe");
    let name = if suffix.len() <= name.len() && text_at(
        name.as_slice(),
        suffix.as_slice(),
        name.len() - suffix.len(),
    ) {
        sub_chars(name.as_slice(), 0, name.len() - suffix.len())
    } else {
        name
    };
    let kin = chars_of("kin");
    let kin_real = chars_of("kin-real");
    let prefix = chars_of("kin-");
    chars_eq(name.as_slice(), kin.as_slice()) || chars_eq(name.as_slice(), kin_real.as_slice())
        || text_at(name.as_slice(), prefix.as_slice(), 0)
}

// ── Canary ──────────────────────────────────────────────────────────────

/// The token to announce, from the value of the launcher's variable. A blank
/// one is none: it would be waited for and never seen.
pub fn canary_announcement(value: Option<&str>) -> (r: Option<String>)
    ensures
        text::opt_text(r) == match value {
            Some(v) => text::non_blank(v@),
            None => None,
        },
{
    match value {
        Some(v) => trim_non_empty(v),
        None => None,
    }
}

/// The value by which the process can tell that the shim is loaded: the
/// launcher's token, so that it comes back, or `1`.
pub fn mark_interpose_active(token: Option<&str>) -> (r: String)
    ensures
        r@ == match token {
            Some(t) => t@,
            None => "1"@,
        },
{
    match token {
        Some(t) => t.to_owned(),
        None => "1".to_owned(),
    }
}

// ── Initialization ──────────────────────────────────────────────────────

/// The environment that decides: each variable, where it is set, and the name
/// under which the program was started.
#[derive(Debug)]
pub struct ShimEnvironment {
    /// `KIN_VFS_DISABLE`
    pub disable: Option<String>,
    /// `KIN_NO_VFS`
    pub no_vfs: Option<String>,
    /// `KIN_VFS_WORKSPACE`
    pub workspace: Option<String>,
    /// `KIN_SESSION_ID`
    pub session_id: Option<String>,
    /// `KIN_VFS_CANARY`
    pub canary: Option<String>,
    /// `KIN_VFS_STRICT`
    pub strict: Option<String>,
    /// `KIN_VFS_SOCK`, or `KIN_VFS_PIPE` where daemons listen on named pipes.
    pub endpoint: Option<String>,
    /// The first argument.
    pub argv0: Option<String>,
}

/// How the shim works in this process.
#[derive(Debug)]
pub struct ShimState {
    /// Absolute path of the workspace root.
    pub workspace_root: String,
    /// The session that projections are scoped to.
    pub session_id: Option<String>,
    /// The launcher's token.
    pub canary_token: Option<String>,
    /// A definitive miss fails loud.
    pub strict: bool,
    /// The daemon's socket, or its named pipe.
    pub endpoint: String,
}

/// The state, over character sequences.
pub struct State {
    pub workspace_root: Seq<char>,
    pub session_id: Option<Seq<char>>,
    pub canary_token: Option<Seq<char>>,
    pub strict: bool,
    pub endpoint: Seq<char>,
}

impl View for ShimState {
    type V = State;

    open spec fn view(&self) -> State {
        State {
            workspace_root: self.workspace_root@,
            session_id: text::opt_text(self.session_id),
            canary_token: text::opt_text(self.canary_token),
            strict: self.strict,
            endpoint: self.endpoint@,
        }
    }
}

/// Whether a variable is set to `1`.
pub open spec fn is_one(value: Option<String>) -> bool {
    text::opt_text(value) == Some("1"@)
}

/// A variable that is set to something.
pub open spec fn non_empty(value: Option<String>) -> Option<Seq<char>> {
    match value {
        Some(v) if v@.len() > 0 => Some(v@),
        _ => None,
    }
}

/// The socket of a workspace, unless another one is named.
pub open spec fn socket_of(workspace: Seq<char>) -> Seq<char> {
    workspace + "/.kin/vfs.sock"@
}

/// A digit of base sixteen.
pub open spec fn hex_digit(d: int) -> char {
    if d < 10 {
        (0x30 + d) as char
    } else {
        (0x61 + d - 10) as char
    }
}

/// `n` in base sixteen, in `width` digits.
pub open spec fn hex_fixed(n: nat, width: nat) -> Seq<char>
    decreases width,
{
    if width == 0 {
        Seq::empty()
    } else {
        hex_fixed(n / 16, (width - 1) as nat).push(hex_digit((n % 16) as int))
    }
}

/// The named pipe of a workspace, unless another one is named.
pub open spec fn pipe_of(workspace: Seq<char>) -> Seq<char> {
    "\\\\.\\pipe\\kin-vfs-"@ + hex_fixed(hashing::text_hash(workspace) as nat, 16)
}

/// Whether the environment keeps the shim out of this process: the kill switch,
/// the bypass switch, a control-plane program, or no workspace.
pub open spec fn kept_out(env: ShimEnvironment) -> bool {
    ||| is_one(env.disable)
    ||| is_one(env.no_vfs)
    ||| env.argv0 matches Some(argv0) && kin_family(argv0@)
    ||| non_empty(env.workspace) is None
}

/// The state that the environment calls for.
pub open spec fn called_for(env: ShimEnvironment, pipes: bool) -> State {
    let workspace = non_empty(env.workspace)->0;
    State {
        workspace_root: workspace,
        session_id: non_empty(env.session_id),
        canary_token: match env.canary {
            Some(v) => text::non_blank(v@),
            None => None,
        },
        strict: is_one(env.strict),
        endpoint: match non_empty(env.endpoint) {
            Some(e) => e,
            None => if pipes {
                pipe_of(workspace)
            } else {
                socket_of(workspace)
            },
        },
    }
}

/// Whether a variable is set to `1`.
fn equals_one(value: &Option<String>) -> (r: bool)
    ensures
        r == is_one(*value),
{
    match value {
        Some(v) => {
            let cs = chars_of(v.as_str());
            let one = chars_of("1");
            chars_eq(cs.as_slice(), one.as_slice())
        },
        None => false,
    }
}

/// A variable that is set to something.
fn set_to_something(value: &Option<String>) -> (r: Option<String>)
    ensures
        text::opt_text(r) == non_empty(*value),
{
    match value {
        Some(v) => {
            if v.as_str().is_empty() {
                None
            } else {
                Some(v.clone())
            }
        },
        None => None,
    }
}

/// A digit of base sixteen.
pub fn hex_char(d: u8) -> (r: char)
    requires
        d < 16,
    ensures
        r == hex_digit(d as int),
{
    let n: u8 = if d < 10 {
        0x30 + d
    } else {
        0x61 + (d - 10)
    };
    n as char
}

/// Appends `n` in base sixteen, in `width` digits.
fn push_hex_fixed(out: &mut String, n: u64, width: u64)
    ensures
        final(out)@ == old(out)@ + hex_fixed(n as nat, width as nat),
    decreases width,
{
    if width > 0 {
        push_hex_fixed(out, n / 16, width - 1);
        out.push(hex_char((n % 16) as u8));
    }
    assert(out@ =~= old(out)@ + hex_fixed(n as nat, width as nat));
}

/// A hash of a workspace path, from which the name of its pipe is derived.
pub fn simple_hash(s: &str) -> (r: u64)
    ensures
        r == hashing::text_hash(s@),
{
    hash_text(s)
}

/// The daemon endpoint of a workspace for which none is named.
fn default_endpoint(workspace: &str, pipes: bool) -> (r: String)
    ensures
        r@ == if pipes {
            pipe_of(workspace@)
        } else {
            socket_of(workspace@)
        },
{
    if pipes {
        let mut out = "\\\\.\\pipe\\kin-vfs-".to_owned();
        push_hex_fixed(&mut out, simple_hash(workspace), 16);
        out
    } else {
        workspace.to_owned().concat("/.kin/vfs.sock")
    }
}

/// The shim of a process. It starts out disabled: calls that arrive before it
/// is set up go straight through.
#[derive(Debug)]
pub struct Shim {
    disabled: bool,
    state: Option<ShimState>,
}

/// The shim after it was set up, from whether it is off and the state that it
/// has, and the value that marks the process.
pub open spec fn coming_up(off: bool, state: Option<State>, env: ShimEnvironment, pipes: bool) -> (
    bool,
    Option<State>,
    Option<Seq<char>>,
) {
    if kept_out(env) {
        (true, state, None)
    } else if state is Some {
        (off, state, None)
    } else {
        let new = called_for(env, pipes);
        (
            false,
            Some(new),
            Some(
                match new.canary_token {
                    Some(token) => token,
                    None => "1"@,
                },
            ),
        )
    }
}

impl Shim {
    /// Whether every hook passes its call through.
    pub closed spec fn off(&self) -> bool {
        self.disabled
    }

    /// The state, once there is one.
    pub closed spec fn set_up(&self) -> Option<State> {
        match self.state {
            Some(s) => Some(s@),
            None => None,
        }
    }

    /// Hooks are served only with a state in place.
    pub open spec fn well_formed(&self) -> bool {
        !self.off() ==> self.set_up() is Some
    }

    /// A shim that is not set up.
    pub fn new() -> (r: Shim)
        ensures
            r.well_formed(),
            r.off(),
            r.set_up() is None,
    {
        Shim { disabled: true, state: None }
    }

    /// Whether every hook passes its call through.
    pub fn is_disabled(&self) -> (r: bool)
        ensures
            r == self.off(),
    {
        self.disabled
    }

    /// The state, once there is one.
    pub fn shim_state(&self) -> (r: Option<&ShimState>)
        ensures
            match r {
                Some(s) => self.set_up() == Some(s@),
                None => self.set_up() is None,
            },
    {
        self.state.as_ref()
    }

    /// Sets the shim up. Where it came up, the value that marks the process is
    /// returned. A state that is already in place stays.
    pub fn shim_init(&mut self, env: &ShimEnvironment, pipes: bool) -> (r: Option<String>)
        requires
            old(self).well_formed(),
        ensures
            final(self).well_formed(),
            (final(self).off(), final(self).set_up(), text::opt_text(r)) == coming_up(
                old(self).off(),
                old(self).set_up(),
                *env,
                pipes,
            ),
            if kept_out(*env) {
                r is None && final(self).off() && final(self).set_up() == old(self).set_up()
            } else if old(self).set_up() is Some {
                r is None && final(self).off() == old(self).off() && final(self).set_up() == old(
                    self,
                ).set_up()
            } else {
                &&& !final(self).off()
                &&& final(self).set_up() == Some(called_for(*env, pipes))
                &&& text::opt_text(r) == Some(
                    match called_for(*env, pipes).canary_token {
                        Some(t) => t,
                        None => "1"@,
                    },
                )
            },
    {
        if equals_one(&env.disable) || equals_one(&env.no_vfs) {
            self.disabled = true;
            return None;
        }
        let kin: bool = match &env.argv0 {
            Some(argv0) => is_kin_family_process(argv0.as_str()),
            None => false,
        };
        if kin {
            self.disabled = true;
            return None;
        }
        let workspace_root = match set_to_something(&env.workspace) {
            Some(w) => w,
            None => {
                self.disabled = true;
                return None;
            },
        };
        if self.state.is_some() {
            return None;
        }
        let session_id = set_to_something(&env.session_id);
        let canary_token = match &env.canary {
            Some(v) => canary_announcement(Some(v.as_str())),
            None => canary_announcement(None),
        };
        let strict: bool = equals_one(&env.strict);
        let endpoint = match set_to_something(&env.endpoint) {
            Some(e) => e,
            None => default_endpoint(workspace_root.as_str(), pipes),
        };
        let sentinel = match &canary_token {
            Some(t) => mark_interpose_active(Some(t.as_str())),
            None => mark_interpose_active(None),
        };
        self.state = Some(
            ShimState { workspace_root, session_id, canary_token, strict, endpoint },
        );
        self.disabled = false;
        Some(sentinel)
    }
}

/// What keeps the projected file system from starting.
pub open spec fn disabled_message() -> Seq<char> {
    "shim disabled via KIN_VFS_DISABLE or missing KIN_VFS_WORKSPACE"@
}

/// Sets the shim up for the projected file system: the workspace root and the
/// named pipe to start the provider with.
pub fn shim_init_windows(shim: &mut Shim, env: &ShimEnvironment) -> (r: Result<
    (String, String),
    String,
>)
    requires
        old(shim).well_formed(),
    ensures
        final(shim).well_formed(),
        match r {
            Ok((root, pipe)) => {
                &&& !final(shim).off()
                &&& final(shim).set_up() matches Some(state)
                &&& root@ == state.workspace_root
                &&& pipe@ == state.endpoint
            },
            Err(message) => final(shim).off() && message@ == disabled_message(),
        },
        kept_out(*env) ==> r is Err,
        !kept_out(*env) && old(shim).set_up() is None ==> r is Ok && final(shim).set_up() == Some(
            called_for(*env, true),
        ),
        !kept_out(*env) && old(shim).set_up() is Some ==> (r is Ok <==> !old(shim).off())
            && final(shim).set_up() == old(shim).set_up(),
{
    let _ = shim.shim_init(env, true);
    if shim.is_disabled() {
        return Err(
            "shim disabled via KIN_VFS_DISABLE or missing KIN_VFS_WORKSPACE".to_owned(),
        );
    }
    match shim.shim_state() {
        Some(state) => Ok((state.workspace_root.clone(), state.endpoint.clone())),
        None => Err(
            "shim disabled via KIN_VFS_DISABLE or missing KIN_VFS_WORKSPACE".to_owned(),
        ),
    }
}

// ── Laws ────────────────────────────────────────────────────────────────

proof fn lemma_basename(before: Seq<char>, c: char, name: Seq<char>)
    requires
        separator(c),
        forall|i: int| 0 <= i < name.len() ==> !separator(#[trigger] name[i]),
    ensures
        basename(before + seq![c] + name) == name,
        basename(name) == name,
    decreases name.len(),
{
    let all = before + seq![c] + name;
    if name.len() > 0 {
        assert(!separator(name[name.len() - 1]));
        assert(all.drop_last() =~= before + seq![c] + name.drop_last());
        lemma_basename(before, c, name.drop_last());
        assert(name.drop_last().push(name.last()) =~= name);
    }
}

/// Whether a program belongs to the control plane is told by its name alone,
/// wherever it lies, however its letters are written, and with or without the
/// suffix of an executable: it is `kin`, or begins with `kin-`.
pub proof fn law_a_program_is_known_by_its_name(before: Seq<char>, c: char, name: Seq<char>)
    requires
        separator(c),
        forall|i: int|
            0 <= i < name.len() ==> !separator(#[trigger] name[i]) && !('A' <= name[i] && name[i]
                <= 'Z'),
        !text::stands_at(name, ".exe"@, name.len() - 4),
    ensures
        kin_family(name) <==> name == "kin"@ || text::stands_at(name, "kin-"@, 0),
        kin_family(before + seq![c] + name) == kin_family(name),
        kin_family(name + ".exe"@) == kin_family(name),
        forall|other: Seq<char>|
            other.len() == name.len() && (forall|i: int|
                0 <= i < name.len() ==> !separator(#[trigger] other[i]) && (other[i] == name[i] || (
                'A' <= other[i] && other[i] <= 'Z' && other[i] as int + 32 == name[i] as int)))
                ==> #[trigger] kin_family(other) == kin_family(name),
{
    reveal_strlit(".exe");
    reveal_strlit("kin");
    reveal_strlit("kin-");
    reveal_strlit("kin-real");
    lemma_basename(before, c, name);
    assert(lowered(name) =~= name);
    let suffixed = name + ".exe"@;
    assert forall|i: int| 0 <= i < suffixed.len() implies !separator(#[trigger] suffixed[i]) by {
        if i < name.len() {
            assert(suffixed[i] == name[i]);
        }
    }
    lemma_basename(before, c, suffixed);
    assert(lowered(suffixed) =~= suffixed);
    assert(suffixed.subrange(suffixed.len() - 4, suffixed.len() as int) =~= ".exe"@);
    assert(suffixed.subrange(0, suffixed.len() - 4) =~= name);
    if name == "kin-real"@ {
        assert(name.subrange(0, 4) =~= "kin-"@);
    }
    assert forall|other: Seq<char>|
        other.len() == name.len() && (forall|i: int|
            0 <= i < name.len() ==> !separator(#[trigger] other[i]) && (other[i] == name[i] || ('A'
                <= other[i] && other[i] <= 'Z' && other[i] as int + 32 == name[i] as int))) implies
        #[trigger] kin_family(other) == kin_family(name) by {
        lemma_basename(before, c, other);
        assert(lowered(other) =~= name);
    }
}

/// The number that digits of base sixteen stand for.
pub open spec fn hex_value(s: Seq<char>) -> nat
    decreases s.len(),
{
    if s.len() == 0 {
        0
    } else {
        let c = s.last();
        (16 * hex_value(s.drop_last()) + if '0' <= c && c <= '9' {
            c as int - '0' as int
        } else {
            c as int - 'a' as int + 10
        }) as nat
    }
}

/// A number that fits is read back from its digits of base sixteen, of which
/// there are as many as asked for.
pub proof fn law_hex_digits_stand_for_the_number(n: nat, width: nat)
    requires
        n < room(width),
    ensures
        hex_fixed(n, width).len() == width,
        hex_value(hex_fixed(n, width)) == n,
    decreases width,
{
    if width > 0 {
        law_hex_digits_stand_for_the_number(n / 16, (width - 1) as nat);
        assert(hex_fixed(n, width).drop_last() =~= hex_fixed(n / 16, (width - 1) as nat));
    }
}

/// Sixteen to the power of `width`.
pub open spec fn room(width: nat) -> nat
    decreases width,
{
    if width == 0 {
        1
    } else {
        16 * room((width - 1) as nat)
    }
}

/// The environment decides how the shim works: the workspace as it is named, the
/// session where one is, the launcher's token without the white space around it,
/// strict mode where it is set to `1`, and the endpoint that is named, or else
/// the socket in the workspace, or the pipe that the workspace's hash names.
pub proof fn law_the_environment_is_followed(env: ShimEnvironment, pipes: bool)
    requires
        !kept_out(env),
    ensures
        ({
            let state = called_for(env, pipes);
            let workspace = env.workspace->0@;
            &&& env.workspace is Some && workspace.len() > 0
            &&& state.workspace_root == workspace
            &&& env.session_id is None ==> state.session_id is None
            &&& env.session_id matches Some(id) ==> state.session_id == if id@.len() > 0 {
                Some(id@)
            } else {
                None
            }
            &&& env.canary is None ==> state.canary_token is None
            &&& env.canary matches Some(token) ==> state.canary_token == text::non_blank(token@)
            &&& state.strict <==> env.strict is Some && env.strict->0@ == "1"@
            &&& env.endpoint is Some && env.endpoint->0@.len() > 0 ==> state.endpoint
                == env.endpoint->0@
            &&& (env.endpoint is None || env.endpoint->0@.len() == 0) ==> state.endpoint == if pipes {
                "\\\\.\\pipe\\kin-vfs-"@ + hex_fixed(hashing::text_hash(workspace) as nat, 16)
            } else {
                workspace + "/.kin/vfs.sock"@
            }
        }),
{
}

/// The shim is kept out by either switch set to `1`, by a control-plane program,
/// and where no workspace is named; and by nothing else.
pub proof fn law_only_these_keep_the_shim_out(env: ShimEnvironment)
    ensures
        kept_out(env) <==> {
            ||| env.disable is Some && env.disable->0@ == "1"@
            ||| env.no_vfs is Some && env.no_vfs->0@ == "1"@
            ||| env.argv0 is Some && kin_family(env.argv0->0@)
            ||| env.workspace is None
            ||| env.workspace->0@.len() == 0
        },
{
}

/// The shim comes up once: setting it up again changes nothing but that a
/// process which is to be kept out is kept out. Where it comes up the process is
/// marked with the launcher's token, or with `1`.
pub proof fn law_the_shim_comes_up_once(
    off: bool,
    state: Option<State>,
    env: ShimEnvironment,
    again: ShimEnvironment,
    pipes: bool,
)
    ensures
        ({
            let first = coming_up(off, state, env, pipes);
            let second = coming_up(first.0, first.1, again, pipes);
            &&& kept_out(env) ==> first == (true, state, None::<Seq<char>>)
            &&& !kept_out(env) && state is Some ==> first == (off, state, None::<Seq<char>>)
            &&& !kept_out(env) && state is None ==> {
                &&& !first.0
                &&& first.1 == Some(called_for(env, pipes))
                &&& first.2 == Some(
                    match called_for(env, pipes).canary_token {
                        Some(token) => token,
                        None => "1"@,
                    },
                )
            }
            &&& first.1 is Some ==> second.1 == first.1 && second.2 is None
        }),
{
}

} // verus!
