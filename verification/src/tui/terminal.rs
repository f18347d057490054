//! The terminal session: entering and leaving the full-screen mode, with compensation when a
//! step fails half-way.

use vstd::prelude::*;

verus! {

#[verifier::external_type_specification]
#[verifier::external_body]
pub struct ExIoError(std::io::Error);

/// One call a session makes on the host's terminal: its mouse-capture flag, and whether it
/// succeeded.
#[derive(Debug, Clone, Copy, PartialEq, Eq)]
pub enum TerminalCall {
    /// Enter full-screen mode.
    Enter(bool, bool),
    /// Leave full-screen mode.
    Restore(bool, bool),
}

/// The calls made on a host's terminal, oldest first.
pub type TerminalLog = Seq<TerminalCall>;

/// The terminal mode switches, done by the host.
pub trait TerminalOps {
    /// The calls made so far on these operations, with their outcomes, oldest first.
    spec fn calls(&self) -> TerminalLog;

    /// Enters raw mode, the alternate screen and (if asked) mouse capture.
    fn enter(&mut self, mouse: bool) -> (r: Result<(), std::io::Error>)
        ensures
            final(self).calls() == old(self).calls().push(TerminalCall::Enter(mouse, r is Ok)),
    ;

    /// Leaves what `enter` set up.
    fn restore(&mut self, mouse: bool) -> (r: Result<(), std::io::Error>)
        ensures
            final(self).calls() == old(self).calls().push(TerminalCall::Restore(mouse, r is Ok)),
    ;
}

/// A terminal in full-screen mode, or out of it after a restore.
pub struct TerminalSession<O: TerminalOps> {
    ops: O,
    active: bool,
    mouse: bool,
}

/// Whether a call is a restore with the given mouse flag, whatever its outcome.
pub open spec fn restores(call: TerminalCall, mouse: bool) -> bool {
    match call {
        TerminalCall::Restore(m, _) => m == mouse,
        _ => false,
    }
}

/// The calls of entering, from the log `before` to the log `after`: one enter that
/// succeeded, or one that failed followed by a compensating restore (whatever its outcome).
pub open spec fn entered(before: TerminalLog, after: TerminalLog, mouse: bool, ok: bool) -> bool {
    if ok {
        after == before.push(TerminalCall::Enter(mouse, true))
    } else {
        &&& after.len() == before.len() + 2
        &&& after.drop_last() == before.push(TerminalCall::Enter(mouse, false))
        &&& restores(after.last(), mouse)
    }
}

impl<O: TerminalOps> TerminalSession<O> {
    /// Whether the terminal is in full-screen mode.
    pub closed spec fn is_active(&self) -> bool {
        self.active
    }

    /// Whether mouse capture was asked for.
    pub closed spec fn uses_mouse(&self) -> bool {
        self.mouse
    }

    /// The calls made on the host's terminal so far.
    pub closed spec fn calls(&self) -> Seq<TerminalCall> {
        self.ops.calls()
    }

    /// Enters full-screen mode; when that fails, undoes what may have been done.
    fn enter(&mut self) -> (r: Result<(), std::io::Error>)
        ensures
            final(self).is_active() == (r is Ok),
            final(self).uses_mouse() == old(self).uses_mouse(),
            entered(old(self).calls(), final(self).calls(), old(self).uses_mouse(), r is Ok),
    {
        self.active = false;
        match self.ops.enter(self.mouse) {
            Ok(()) => {
                self.active = true;
                Ok(())
            },
            Err(error) => {
                let ghost failed = self.ops.calls();
                let _ = self.ops.restore(self.mouse);
                assert(self.ops.calls().drop_last() =~= failed);
                Err(error)
            },
        }
    }

    /// Starts a session in full-screen mode: one call to enter, with the given mouse flag. It
    /// succeeds exactly when that call does; when it fails, a compensating restore follows and
    /// the operations come back with the error.
    pub fn start(ops: O, mouse: bool) -> (r: Result<Self, (O, std::io::Error)>)
        ensures
            r matches Ok(s) ==> s.is_active() && s.uses_mouse() == mouse && entered(ops.calls(), s.calls(), mouse, true),
            r matches Err((back, _)) ==> entered(ops.calls(), back.calls(), mouse, false),
    {
        let mut session = TerminalSession { ops, active: false, mouse };
        match session.enter() {
            Ok(()) => Ok(session),
            Err(e) => Err((session.ops, e)),
        }
    }

    /// Leaves full-screen mode with one restore call; does nothing when already out of it. A
    /// failed restore leaves the session active, so that it can be retried.
    pub fn restore(&mut self) -> (r: Result<(), std::io::Error>)
        ensures
            !old(self).is_active() ==> r is Ok && !final(self).is_active() && final(self).calls() == old(self).calls(),
            old(self).is_active() ==> final(self).is_active() == (r is Err) && final(self).calls() == old(
                self,
            ).calls().push(TerminalCall::Restore(old(self).uses_mouse(), r is Ok)),
            final(self).uses_mouse() == old(self).uses_mouse(),
    {
        if !self.active {
            return Ok(());
        }
        match self.ops.restore(self.mouse) {
            Ok(()) => {
                self.active = false;
                Ok(())
            },
            Err(e) => Err(e),
        }
    }

    /// Ends the session: restores the terminal when it is still in full-screen mode (see
    /// `restore`) and gives back the operations.
    pub fn finish(self) -> (r: (O, Result<(), std::io::Error>))
        ensures
            !self.is_active() ==> r.1 is Ok && r.0.calls() == self.calls(),
            self.is_active() ==> r.0.calls() == self.calls().push(TerminalCall::Restore(self.uses_mouse(), r.1 is Ok)),
    {
        let mut session = self;
        let result = session.restore();
        (session.ops, result)
    }

    /// Whether the terminal is in full-screen mode.
    pub fn active(&self) -> (b: bool)
        ensures
            b == self.is_active(),
    {
        self.active
    }

    /// Leaves full-screen mode (see `restore`), runs an operation, and enters again (see
    /// `enter`). When leaving fails, the operation does not run, the error comes back and the
    /// session stays active; otherwise the result is the operation's, or the error of entering
    /// again, after which a compensating restore follows and the session is left inactive.
    pub fn suspend<T, F: FnOnce() -> T>(&mut self, operation: F) -> (r: Result<T, std::io::Error>)
        requires
            operation.requires(()),
        ensures
            r matches Ok(v) ==> operation.ensures((), v),
            final(self).uses_mouse() == old(self).uses_mouse(),
            ({
                let m = old(self).uses_mouse();
                let before = old(self).calls();
                let after = final(self).calls();
                let left_failed = old(self).is_active() && after[before.len() as int] == TerminalCall::Restore(m, false);
                let left = if old(self).is_active() {
                    before.push(TerminalCall::Restore(m, true))
                } else {
                    before
                };
                &&& old(self).is_active() ==> after.len() > before.len() && restores(after[before.len() as int], m)
                &&& left_failed ==> r is Err && final(self).is_active() && after == before.push(TerminalCall::Restore(m, false))
                &&& !left_failed ==> final(self).is_active() == (r is Ok) && entered(left, after, m, r is Ok)
            }),
    {
        let ghost before = self.calls();
        match self.restore() {
            Ok(()) => {},
            Err(e) => {
                return Err(e);
            },
        }
        let ghost left = self.calls();
        let result = operation();
        let entry = self.enter();
        proof {
            let after = self.calls();
            if old(self).is_active() {
                let i = before.len() as int;
                assert(left.len() == before.len() + 1);
                if entry is Ok {
                    assert(after == left.push(TerminalCall::Enter(self.mouse, true)));
                } else {
                    assert(after.drop_last() == left.push(TerminalCall::Enter(self.mouse, false)));
                    assert(after[i] == after.drop_last()[i]);
                }
                assert(after[i] == left[i]);
            }
        }
        match entry {
            Ok(()) => Ok(result),
            Err(e) => Err(e),
        }
    }
}

} // verus!
