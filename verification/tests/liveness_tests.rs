use fubuki::liveness::{
    on_heartbeat_miss, on_heartbeat_reply, session_step, PathStatus, SessionAction, SessionEvent,
    SessionState,
};

#[test]
fn path_goes_down_exactly_once_per_transition() {
    let mut st = PathStatus { up: true, loss: 0, recv_streak: 0 };
    let mut flips = 0;
    for _ in 0..10 {
        if on_heartbeat_miss(&mut st, 5) {
            flips += 1;
        }
    }
    assert_eq!(flips, 1);
    assert!(!st.up);
}

#[test]
fn path_goes_down_at_the_threshold() {
    let mut st = PathStatus { up: true, loss: 0, recv_streak: 0 };
    assert!(!on_heartbeat_miss(&mut st, 3));
    assert!(st.up);
    assert!(!on_heartbeat_miss(&mut st, 3));
    assert!(st.up);
    assert!(on_heartbeat_miss(&mut st, 3));
    assert!(!st.up);
}

#[test]
fn replies_bring_a_down_path_up_after_the_streak() {
    let mut st = PathStatus::new();
    assert!(!st.up);
    assert!(!on_heartbeat_reply(&mut st, 3));
    assert!(!on_heartbeat_reply(&mut st, 3));
    assert!(on_heartbeat_reply(&mut st, 3));
    assert!(st.up);
    // further replies report no second transition
    assert!(!on_heartbeat_reply(&mut st, 3));
    assert!(st.up);
}

#[test]
fn a_miss_interrupts_the_recovery_streak() {
    let mut st = PathStatus::new();
    on_heartbeat_reply(&mut st, 3);
    on_heartbeat_reply(&mut st, 3);
    on_heartbeat_miss(&mut st, 5);
    assert_eq!(st.recv_streak, 0);
    assert!(!st.up);
}

#[test]
fn session_machine_walks_the_happy_path() {
    let (s, a, reach) = session_step(SessionState::Init, SessionEvent::Start);
    assert_eq!(s, SessionState::Connecting);
    assert_eq!(a, SessionAction::OpenConnection);
    assert_eq!(reach, None);
    let (s, a, _) = session_step(s, SessionEvent::ConnectOk);
    assert_eq!(s, SessionState::Registering);
    assert_eq!(a, SessionAction::SendRegister);
    let (s, a, reach) = session_step(s, SessionEvent::RegisterAccepted);
    assert_eq!(s, SessionState::Running);
    assert_eq!(a, SessionAction::StartRunning);
    assert_eq!(reach, Some(true));
}

#[test]
fn heartbeat_timeout_tears_down_and_marks_unreachable() {
    // losing the server flips the reachability flag and backs off; the
    // elapsed backoff reconnects
    let (s, a, reach) = session_step(SessionState::Running, SessionEvent::HeartbeatTimeout);
    assert_eq!(s, SessionState::Backoff);
    assert_eq!(a, SessionAction::TearDownAndWait);
    assert_eq!(reach, Some(false));
    let (s, a, _) = session_step(s, SessionEvent::BackoffElapsed);
    assert_eq!(s, SessionState::Connecting);
    assert_eq!(a, SessionAction::OpenConnection);
}

#[test]
fn rejection_backs_off() {
    let (s, a, reach) = session_step(SessionState::Registering, SessionEvent::RegisterRejected);
    assert_eq!(s, SessionState::Backoff);
    assert_eq!(a, SessionAction::TearDownAndWait);
    assert_eq!(reach, Some(false));
}

#[test]
fn stray_events_are_ignored() {
    let (s, a, reach) = session_step(SessionState::Running, SessionEvent::ConnectOk);
    assert_eq!(s, SessionState::Running);
    assert_eq!(a, SessionAction::Ignore);
    assert_eq!(reach, None);
}
