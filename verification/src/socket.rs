//! Connecting to the daemon's socket within a time limit.
//!
//! The socket is made non-blocking, connected, waited for, and made blocking
//! again. Each step is decided here on what came of the one before; a socket
//! that is not handed out is closed.

use vstd::prelude::*;
use vstd::string::StringSliceAdditionalSpecFns;

use crate::bytes::{contains_byte, to_vec};
use crate::sys::{EINPROGRESS, EWOULDBLOCK};

verus! {

/// The address of a socket path: its bytes and a terminating zero.
pub open spec fn address_of(path: Seq<u8>) -> Seq<u8> {
    path.push(0)
}

/// What is to be done next.
#[derive(Debug)]
pub enum ConnectAction {
    /// Make a socket.
    MakeSocket,
    /// Make the socket non-blocking.
    Unblock,
    /// Connect the socket to this address.
    Connect(Vec<u8>),
    /// Wait until the socket can be written to, no longer than the limit.
    Poll,
    /// Read the error that the socket holds.
    ReadError,
    /// Make the socket blocking again, and hand it out.
    HandOut,
    /// Close the socket: there is no connection.
    Close,
    /// Nothing: there is neither a socket nor a connection.
    Fail,
}

/// What came of an action.
#[derive(Debug, Clone, Copy, PartialEq, Eq, Structural)]
pub enum ConnectEvent {
    /// It was done.
    Done,
    /// It failed with this errno.
    Failed(i32),
    /// The wait ended, with this many sockets ready; less than one where it
    /// timed out or failed.
    Ready(i32),
    /// The socket holds this error; zero is none.
    Holds(i32),
}

/// What is to be done next, over byte sequences.
pub enum Action {
    MakeSocket,
    Unblock,
    Connect(Seq<u8>),
    Poll,
    ReadError,
    HandOut,
    Close,
    Fail,
}

impl View for ConnectAction {
    type V = Action;

    open spec fn view(&self) -> Action {
        match self {
            ConnectAction::MakeSocket => Action::MakeSocket,
            ConnectAction::Unblock => Action::Unblock,
            ConnectAction::Connect(address) => Action::Connect(address@),
            ConnectAction::Poll => Action::Poll,
            ConnectAction::ReadError => Action::ReadError,
            ConnectAction::HandOut => Action::HandOut,
            ConnectAction::Close => Action::Close,
            ConnectAction::Fail => Action::Fail,
        }
    }
}

/// Where a connection stands.
#[derive(Debug, Clone, Copy, PartialEq, Eq, Structural)]
pub enum ConnectStage {
    /// The socket is being made.
    Making,
    /// It is being made non-blocking.
    Unblocking,
    /// It is being connected.
    Connecting,
    /// It is being waited for.
    Polling,
    /// Its error is being read.
    Checking,
    /// Nothing is outstanding.
    Finished,
}

/// A connection under way.
pub struct Connecting {
    pub path: Seq<u8>,
    pub capacity: int,
    pub stage: ConnectStage,
}

/// Whether an event is what the stage waits for.
pub open spec fn awaited(stage: ConnectStage, event: ConnectEvent) -> bool {
    match stage {
        ConnectStage::Making | ConnectStage::Unblocking | ConnectStage::Connecting => event is Done
            || event is Failed,
        ConnectStage::Polling => event is Ready,
        ConnectStage::Checking => event is Holds,
        ConnectStage::Finished => false,
    }
}

/// Whether a non-blocking connect goes on in the background.
pub open spec fn goes_on(errno: i32) -> bool {
    errno == EINPROGRESS || errno == EWOULDBLOCK
}

/// The stage and what is to be done, after an event. An address that does not
/// fit is found out only once the socket is there, and closes it.
pub open spec fn next(call: Connecting, event: ConnectEvent) -> (ConnectStage, Action) {
    match (call.stage, event) {
        (ConnectStage::Making, ConnectEvent::Done) => (ConnectStage::Unblocking, Action::Unblock),
        (ConnectStage::Making, _) => (ConnectStage::Finished, Action::Fail),
        (ConnectStage::Unblocking, ConnectEvent::Done) => if address_of(call.path).len()
            <= call.capacity {
            (ConnectStage::Connecting, Action::Connect(address_of(call.path)))
        } else {
            (ConnectStage::Finished, Action::Close)
        },
        (ConnectStage::Connecting, ConnectEvent::Done) => (ConnectStage::Finished, Action::HandOut),
        (ConnectStage::Connecting, ConnectEvent::Failed(errno)) => if goes_on(errno) {
            (ConnectStage::Polling, Action::Poll)
        } else {
            (ConnectStage::Finished, Action::Close)
        },
        (ConnectStage::Polling, ConnectEvent::Ready(n)) => if n > 0 {
            (ConnectStage::Checking, Action::ReadError)
        } else {
            (ConnectStage::Finished, Action::Close)
        },
        (ConnectStage::Checking, ConnectEvent::Holds(error)) => if error == 0 {
            (ConnectStage::Finished, Action::HandOut)
        } else {
            (ConnectStage::Finished, Action::Close)
        },
        (ConnectStage::Finished, _) => (ConnectStage::Finished, Action::Fail),
        _ => (ConnectStage::Finished, Action::Close),
    }
}

/// A connection under way.
#[derive(Debug)]
pub struct SocketConnect {
    path: Vec<u8>,
    capacity: usize,
    stage: ConnectStage,
}

impl View for SocketConnect {
    type V = Connecting;

    closed spec fn view(&self) -> Connecting {
        Connecting { path: self.path@, capacity: self.capacity as int, stage: self.stage }
    }
}

/// How a connection to a socket path starts.
pub open spec fn starting(path: Seq<u8>, capacity: int) -> (Connecting, Action) {
    if path.contains(0) {
        (Connecting { path, capacity, stage: ConnectStage::Finished }, Action::Fail)
    } else {
        (Connecting { path, capacity, stage: ConnectStage::Making }, Action::MakeSocket)
    }
}

impl SocketConnect {
    /// Begins to connect to a socket path; an address holds `capacity` bytes.
    /// A path that holds a zero names no socket.
    pub fn begin(path: &str, capacity: usize) -> (r: (SocketConnect, ConnectAction))
        ensures
            (r.0@, r.1@) == starting(vstd::utf8::encode_utf8(path@), capacity as int),
            r.0@.path == vstd::utf8::encode_utf8(path@),
            r.0@.capacity == capacity,
            if vstd::utf8::encode_utf8(path@).contains(0) {
                r.0@.stage is Finished && r.1@ is Fail
            } else {
                r.0@.stage is Making && r.1@ is MakeSocket
            },
    {
        let bytes = to_vec(path.as_bytes());
        if contains_byte(bytes.as_slice(), 0) {
            (
                SocketConnect { path: bytes, capacity, stage: ConnectStage::Finished },
                ConnectAction::Fail,
            )
        } else {
            (
                SocketConnect { path: bytes, capacity, stage: ConnectStage::Making },
                ConnectAction::MakeSocket,
            )
        }
    }

    /// The address, where it fits.
    fn address(&self) -> (r: Option<Vec<u8>>)
        ensures
            match r {
                Some(a) => a@ == address_of(self@.path) && a@.len() <= self@.capacity,
                None => address_of(self@.path).len() > self@.capacity,
            },
    {
        if self.path.len() >= self.capacity {
            return None;
        }
        let mut address = to_vec(self.path.as_slice());
        address.push(0);
        Some(address)
    }

    /// Takes what came of the last action.
    pub fn advance(&mut self, event: ConnectEvent) -> (r: ConnectAction)
        requires
            awaited(old(self)@.stage, event),
        ensures
            (final(self)@.stage, r@) == next(old(self)@, event),
            final(self)@.path == old(self)@.path,
            final(self)@.capacity == old(self)@.capacity,
    {
        let (stage, action) = match (self.stage, event) {
            (ConnectStage::Making, ConnectEvent::Done) => (
                ConnectStage::Unblocking,
                ConnectAction::Unblock,
            ),
            (ConnectStage::Making, _) => (ConnectStage::Finished, ConnectAction::Fail),
            (ConnectStage::Unblocking, ConnectEvent::Done) => match self.address() {
                Some(address) => (ConnectStage::Connecting, ConnectAction::Connect(address)),
                None => (ConnectStage::Finished, ConnectAction::Close),
            },
            (ConnectStage::Connecting, ConnectEvent::Done) => (
                ConnectStage::Finished,
                ConnectAction::HandOut,
            ),
            (ConnectStage::Connecting, ConnectEvent::Failed(errno)) => if errno == EINPROGRESS
                || errno == EWOULDBLOCK {
                (ConnectStage::Polling, ConnectAction::Poll)
            } else {
                (ConnectStage::Finished, ConnectAction::Close)
            },
            (ConnectStage::Polling, ConnectEvent::Ready(n)) => if n > 0 {
                (ConnectStage::Checking, ConnectAction::ReadError)
            } else {
                (ConnectStage::Finished, ConnectAction::Close)
            },
            (ConnectStage::Checking, ConnectEvent::Holds(error)) => if error == 0 {
                (ConnectStage::Finished, ConnectAction::HandOut)
            } else {
                (ConnectStage::Finished, ConnectAction::Close)
            },
            (ConnectStage::Finished, _) => (ConnectStage::Finished, ConnectAction::Fail),
            _ => (ConnectStage::Finished, ConnectAction::Close),
        };
        self.stage = stage;
        action
    }
}

// ── Laws ────────────────────────────────────────────────────────────────

/// Whether a socket is held while a stage waits.
pub open spec fn holds_socket(stage: ConnectStage) -> bool {
    stage != ConnectStage::Making && stage != ConnectStage::Finished
}

/// No socket is lost: one that was made is, when the connection ends, either
/// handed out or closed, and nothing is closed where none was made.
pub proof fn law_no_socket_is_lost(call: Connecting, event: ConnectEvent)
    requires
        awaited(call.stage, event),
    ensures
        ({
            let (stage, action) = next(call, event);
            &&& holds_socket(call.stage) && stage is Finished ==> action is HandOut
                || action is Close
            &&& call.stage is Making ==> (stage is Finished <==> action is Fail)
            &&& action is HandOut || action is Close || action is Fail <==> stage is Finished
            &&& call.stage is Making ==> (holds_socket(stage) <==> event is Done)
        }),
{
}

/// How many steps are left at the most.
pub open spec fn steps_left(stage: ConnectStage) -> int {
    match stage {
        ConnectStage::Making => 5,
        ConnectStage::Unblocking => 4,
        ConnectStage::Connecting => 3,
        ConnectStage::Polling => 2,
        ConnectStage::Checking => 1,
        ConnectStage::Finished => 0,
    }
}

/// A connection ends after five steps at the most, one of them a wait.
pub proof fn law_a_connection_attempt_ends(call: Connecting, event: ConnectEvent)
    requires
        awaited(call.stage, event),
    ensures
        0 <= steps_left(next(call, event).0) < steps_left(call.stage) <= 5,
        next(call, event).1 is Poll ==> call.stage is Connecting,
{
}

/// A socket is handed out only where the kernel connected it: at once, or after
/// a wait that ended in time and left no error.
pub proof fn law_only_a_connected_socket_is_handed_out(call: Connecting, event: ConnectEvent)
    requires
        awaited(call.stage, event),
    ensures
        next(call, event).1 is HandOut <==> {
            ||| call.stage is Connecting && event is Done
            ||| call.stage is Checking && event == ConnectEvent::Holds(0)
        },
{
}

/// A connection that goes well connects one socket to the path, closed by a
/// zero: the socket is made, made non-blocking, connected, and handed out, at
/// once or after one wait that left no error. A path that does not fit the
/// address with its zero closes the socket before anything is connected, and a
/// path that holds a zero names no socket at all.
pub proof fn law_a_socket_is_connected_to_its_path(path: Seq<u8>, capacity: int, errno: i32, n: i32)
    ensures
        path.contains(0) ==> starting(path, capacity).1 == Action::Fail,
        !path.contains(0) ==> {
            let (call, first) = starting(path, capacity);
            let (s1, a1) = next(call, ConnectEvent::Done);
            let (s2, a2) = next(Connecting { stage: s1, ..call }, ConnectEvent::Done);
            let connecting = Connecting { stage: s2, ..call };
            let (s3, a3) = next(connecting, ConnectEvent::Failed(errno));
            let (s4, a4) = next(Connecting { stage: s3, ..call }, ConnectEvent::Ready(n));
            let checking = Connecting { stage: s4, ..call };
            &&& first == Action::MakeSocket && a1 == Action::Unblock
            &&& path.len() < capacity ==> a2 == Action::Connect(path + seq![0u8])
            &&& path.len() >= capacity ==> a2 == Action::Close
            &&& path.len() < capacity ==> {
                &&& next(connecting, ConnectEvent::Done).1 == Action::HandOut
                &&& a3 == if errno == 115 || errno == 11 {
                    Action::Poll
                } else {
                    Action::Close
                }
                &&& a3 is Poll ==> a4 == if n > 0 {
                    Action::ReadError
                } else {
                    Action::Close
                }
                &&& a4 is ReadError ==> next(checking, ConnectEvent::Holds(0)).1 == Action::HandOut
                    && next(checking, ConnectEvent::Holds(errno)).1 == Action::Close
            }
        },
{
    assert(path.push(0) =~= path + seq![0u8]);
}

} // verus!
