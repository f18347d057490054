use promptr::tui::{TerminalLog, TerminalOps, TerminalSession};
use std::io;
use std::sync::{Arc, Mutex};

#[derive(Debug, Default)]
struct State {
    enters: usize,
    restores: usize,
    fail_enter: Option<usize>,
    fail_restore: Option<usize>,
}

#[derive(Clone, Debug)]
struct FakeOps(Arc<Mutex<State>>);

impl TerminalOps for FakeOps {
    fn calls(&self) -> TerminalLog {
        unreachable!("the call log is a specification, not run")
    }
    fn enter(&mut self, _: bool) -> io::Result<()> {
        let mut state = self.0.lock().unwrap();
        state.enters += 1;
        if state.fail_enter == Some(state.enters) {
            return Err(io::Error::other("partial enter failure"));
        }
        Ok(())
    }
    fn restore(&mut self, _: bool) -> io::Result<()> {
        let mut state = self.0.lock().unwrap();
        state.restores += 1;
        if state.fail_restore == Some(state.restores) {
            return Err(io::Error::other("restore failure"));
        }
        Ok(())
    }
}

#[test]
fn restore_is_idempotent_and_suspend_reenters() {
    let state = Arc::new(Mutex::new(State::default()));
    let mut session = TerminalSession::start(FakeOps(Arc::clone(&state)), true).unwrap();
    session.restore().unwrap();
    session.restore().unwrap();
    {
        let state = state.lock().unwrap();
        assert_eq!((state.enters, state.restores), (1, 1));
    }
    session.suspend(|| ()).unwrap();
    session.restore().unwrap();
    drop(session);
    let state = state.lock().unwrap();
    assert_eq!((state.enters, state.restores), (2, 2));
}

#[test]
fn start_compensates_a_partial_enter_failure() {
    let state = Arc::new(Mutex::new(State { fail_enter: Some(1), ..State::default() }));
    let result = TerminalSession::start(FakeOps(Arc::clone(&state)), true);
    assert!(result.is_err());
    let state = state.lock().unwrap();
    assert_eq!((state.enters, state.restores), (1, 1));
}

#[test]
fn suspend_compensates_a_partial_reentry_failure() {
    let state = Arc::new(Mutex::new(State { fail_enter: Some(2), ..State::default() }));
    let mut session = TerminalSession::start(FakeOps(Arc::clone(&state)), false).unwrap();
    let result = session.suspend(|| 42);
    assert!(result.is_err());
    assert!(!session.active());
    session.restore().unwrap();
    drop(session);
    let state = state.lock().unwrap();
    assert_eq!((state.enters, state.restores), (2, 2));
}

#[test]
fn failed_restore_remains_retryable() {
    let state = Arc::new(Mutex::new(State { fail_restore: Some(1), ..State::default() }));
    let mut session = TerminalSession::start(FakeOps(Arc::clone(&state)), false).unwrap();
    assert!(session.restore().is_err());
    assert!(session.active());
    session.restore().unwrap();
    drop(session);
    let state = state.lock().unwrap();
    assert_eq!((state.enters, state.restores), (1, 2));
}

#[test]
fn finish_restores_an_active_session_once() {
    let state = Arc::new(Mutex::new(State::default()));
    let session = TerminalSession::start(FakeOps(Arc::clone(&state)), true).unwrap();
    let (_, result) = session.finish();
    assert!(result.is_ok());
    {
        let state = state.lock().unwrap();
        assert_eq!((state.enters, state.restores), (1, 1));
    }
    let mut session = TerminalSession::start(FakeOps(Arc::clone(&state)), true).unwrap();
    session.restore().unwrap();
    let (_, result) = session.finish();
    assert!(result.is_ok());
    let state = state.lock().unwrap();
    assert_eq!((state.enters, state.restores), (2, 2));
}

#[test]
fn a_failed_start_hands_the_operations_back_after_compensating() {
    let state = Arc::new(Mutex::new(State { fail_enter: Some(1), ..State::default() }));
    match TerminalSession::start(FakeOps(Arc::clone(&state)), true) {
        Ok(_) => panic!("entering was meant to fail"),
        Err((ops, error)) => {
            assert_eq!(error.to_string(), "partial enter failure");
            assert!(Arc::ptr_eq(&ops.0, &state));
        },
    }
    let state = state.lock().unwrap();
    assert_eq!((state.enters, state.restores), (1, 1));
}
