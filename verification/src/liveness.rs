//! Heartbeat-driven liveness: the per-path UP/DOWN status a node keeps for
//! the server and for each peer, and the TCP session state machine that
//! registers, runs and backs off.

use vstd::prelude::*;

verus! {

/// The liveness of one path: whether it is usable, how many heartbeat
/// intervals in a row went unanswered, and how many replies in a row a down
/// path has produced.
#[derive(Clone, Copy, Debug, PartialEq, Eq, Structural)]
pub struct PathStatus {
    pub up: bool,
    pub loss: u64,
    pub recv_streak: u64,
}

impl PathStatus {
    /// A freshly created path starts down: it must earn its way up with
    /// replies.
    pub open spec fn spec_new() -> PathStatus {
        PathStatus { up: false, loss: 0, recv_streak: 0 }
    }

    pub fn new() -> (r: PathStatus)
        ensures
            r == PathStatus::spec_new(),
    {
        PathStatus { up: false, loss: 0, recv_streak: 0 }
    }
}

/// The status after one heartbeat interval passed without a reply.
pub open spec fn spec_miss_step(st: PathStatus, loss_threshold: u64) -> PathStatus {
    let loss = if st.loss < u64::MAX {
        (st.loss + 1) as u64
    } else {
        st.loss
    };
    PathStatus { up: st.up && loss < loss_threshold, loss, recv_streak: 0 }
}

/// The status after a heartbeat reply arrived.
pub open spec fn spec_reply_step(st: PathStatus, recv_threshold: u64) -> PathStatus {
    if st.up {
        PathStatus { up: true, loss: 0, recv_streak: 0 }
    } else {
        let streak = if st.recv_streak < u64::MAX {
            (st.recv_streak + 1) as u64
        } else {
            st.recv_streak
        };
        PathStatus { up: streak >= recv_threshold, loss: 0, recv_streak: streak }
    }
}

/// Record a heartbeat interval that got no reply. The result says whether
/// this very miss took the path down.
pub fn on_heartbeat_miss(st: &mut PathStatus, loss_threshold: u64) -> (went_down: bool)
    ensures
        *final(st) == spec_miss_step(*old(st), loss_threshold),
        went_down == (old(st).up && !final(st).up),
{
    let was_up = st.up;
    if st.loss < u64::MAX {
        st.loss = st.loss + 1;
    }
    st.recv_streak = 0;
    st.up = st.up && st.loss < loss_threshold;
    was_up && !st.up
}

/// Record a heartbeat reply. The result says whether this very reply
/// brought the path up.
pub fn on_heartbeat_reply(st: &mut PathStatus, recv_threshold: u64) -> (went_up: bool)
    ensures
        *final(st) == spec_reply_step(*old(st), recv_threshold),
        went_up == (!old(st).up && final(st).up),
{
    let was_up = st.up;
    st.loss = 0;
    if st.up {
        st.recv_streak = 0;
    } else {
        if st.recv_streak < u64::MAX {
            st.recv_streak = st.recv_streak + 1;
        }
        st.up = st.recv_streak >= recv_threshold;
    }
    !was_up && st.up
}

/// Reaching the loss threshold takes a path down exactly once per
/// transition: the miss that crosses the threshold reports the flip, and
/// every further miss finds the path already down and reports none.
pub proof fn lemma_down_flips_once(st: PathStatus, loss_threshold: u64)
    ensures
        ({
            let st1 = spec_miss_step(st, loss_threshold);
            let flipped1 = st.up && !st1.up;
            let st2 = spec_miss_step(st1, loss_threshold);
            let flipped2 = st1.up && !st2.up;
            !(flipped1 && flipped2)
        }),
        !st.up ==> !(st.up && !spec_miss_step(st, loss_threshold).up),
{
}

/// A path comes up exactly once per transition as well: the reply that
/// completes the streak reports the flip, and further replies on an up path
/// report none.
pub proof fn lemma_up_flips_once(st: PathStatus, recv_threshold: u64)
    ensures
        ({
            let st1 = spec_reply_step(st, recv_threshold);
            let flipped1 = !st.up && st1.up;
            let st2 = spec_reply_step(st1, recv_threshold);
            let flipped2 = !st1.up && st2.up;
            !(flipped1 && flipped2)
        }),
{
}

// ---------------------------------------------------------------------------
// the node's TCP session state machine
// ---------------------------------------------------------------------------

/// Where one group's TCP session to the server stands.
#[derive(Clone, Copy, Debug, PartialEq, Eq, Structural)]
pub enum SessionState {
    Init,
    Connecting,
    Registering,
    Running,
    Backoff,
}

/// What happened to the session.
#[derive(Clone, Copy, Debug, PartialEq, Eq, Structural)]
pub enum SessionEvent {
    Start,
    ConnectOk,
    ConnectFail,
    RegisterAccepted,
    RegisterRejected,
    HeartbeatTimeout,
    IoFailure,
    BackoffElapsed,
}

/// What the runtime must do next.
#[derive(Clone, Copy, Debug, PartialEq, Eq, Structural)]
pub enum SessionAction {
    /// Open the TCP connection to the server.
    OpenConnection,
    /// Send the registration message.
    SendRegister,
    /// Start the heartbeat, inbound and outbound tasks.
    StartRunning,
    /// Tear the connection and its sibling tasks down, then wait the
    /// reconnect interval.
    TearDownAndWait,
    /// Nothing to do for this event in this state.
    Ignore,
}

/// One step of the session machine, with what it asks the runtime to do and
/// what it learned about the server's reachability over TCP: reachable on a
/// completed registration, unreachable on any failure that tears the
/// session down.
pub open spec fn spec_session_step(s: SessionState, e: SessionEvent) -> (
    SessionState,
    SessionAction,
    Option<bool>,
) {
    match (s, e) {
        (SessionState::Init, SessionEvent::Start) => (
            SessionState::Connecting,
            SessionAction::OpenConnection,
            None,
        ),
        (SessionState::Connecting, SessionEvent::ConnectOk) => (
            SessionState::Registering,
            SessionAction::SendRegister,
            None,
        ),
        (SessionState::Connecting, SessionEvent::ConnectFail) => (
            SessionState::Backoff,
            SessionAction::TearDownAndWait,
            Some(false),
        ),
        (SessionState::Registering, SessionEvent::RegisterAccepted) => (
            SessionState::Running,
            SessionAction::StartRunning,
            Some(true),
        ),
        (SessionState::Registering, SessionEvent::RegisterRejected) => (
            SessionState::Backoff,
            SessionAction::TearDownAndWait,
            Some(false),
        ),
        (SessionState::Registering, SessionEvent::HeartbeatTimeout) => (
            SessionState::Backoff,
            SessionAction::TearDownAndWait,
            Some(false),
        ),
        (SessionState::Registering, SessionEvent::IoFailure) => (
            SessionState::Backoff,
            SessionAction::TearDownAndWait,
            Some(false),
        ),
        (SessionState::Running, SessionEvent::HeartbeatTimeout) => (
            SessionState::Backoff,
            SessionAction::TearDownAndWait,
            Some(false),
        ),
        (SessionState::Running, SessionEvent::IoFailure) => (
            SessionState::Backoff,
            SessionAction::TearDownAndWait,
            Some(false),
        ),
        (SessionState::Backoff, SessionEvent::BackoffElapsed) => (
            SessionState::Connecting,
            SessionAction::OpenConnection,
            None,
        ),
        _ => (s, SessionAction::Ignore, None),
    }
}

/// Drive the session machine one event forward.
pub fn session_step(s: SessionState, e: SessionEvent) -> (r: (
    SessionState,
    SessionAction,
    Option<bool>,
))
    ensures
        r == spec_session_step(s, e),
{
    match (s, e) {
        (SessionState::Init, SessionEvent::Start) => (
            SessionState::Connecting,
            SessionAction::OpenConnection,
            None,
        ),
        (SessionState::Connecting, SessionEvent::ConnectOk) => (
            SessionState::Registering,
            SessionAction::SendRegister,
            None,
        ),
        (SessionState::Connecting, SessionEvent::ConnectFail) => (
            SessionState::Backoff,
            SessionAction::TearDownAndWait,
            Some(false),
        ),
        (SessionState::Registering, SessionEvent::RegisterAccepted) => (
            SessionState::Running,
            SessionAction::StartRunning,
            Some(true),
        ),
        (SessionState::Registering, SessionEvent::RegisterRejected) => (
            SessionState::Backoff,
            SessionAction::TearDownAndWait,
            Some(false),
        ),
        (SessionState::Registering, SessionEvent::HeartbeatTimeout) => (
            SessionState::Backoff,
            SessionAction::TearDownAndWait,
            Some(false),
        ),
        (SessionState::Registering, SessionEvent::IoFailure) => (
            SessionState::Backoff,
            SessionAction::TearDownAndWait,
            Some(false),
        ),
        (SessionState::Running, SessionEvent::HeartbeatTimeout) => (
            SessionState::Backoff,
            SessionAction::TearDownAndWait,
            Some(false),
        ),
        (SessionState::Running, SessionEvent::IoFailure) => (
            SessionState::Backoff,
            SessionAction::TearDownAndWait,
            Some(false),
        ),
        (SessionState::Backoff, SessionEvent::BackoffElapsed) => (
            SessionState::Connecting,
            SessionAction::OpenConnection,
            None,
        ),
        _ => (s, SessionAction::Ignore, None),
    }
}

} // verus!
