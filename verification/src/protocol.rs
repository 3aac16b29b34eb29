//! The control-protocol state machine.
//!
//! A session serves a fixed sequence of configurations over one TCP
//! listener, one connection and one configuration at a time. In
//! `AwaitingCommand`, the line `startTestReq` is acknowledged with `ack`
//! and starts one recording window (the fixed tick sequence, then stop,
//! persist and the `fin` reply); the line `finished recording` advances to
//! the next configuration or, when none remain, closes the session; any
//! other line is a protocol violation that aborts the session — never a
//! silent ignore. The driver here makes every decision; reading lines,
//! writing replies and running the ticks stay in the unverified shell.

use vstd::prelude::*;
use crate::strutil::str_eq;

verus! {

/// The session states of the control protocol.
#[derive(Clone, Copy, Debug, PartialEq, Eq, Structural)]
pub enum SessionState {
    /// Waiting for the next client command.
    AwaitingCommand,
    /// A recording window is running.
    Recording,
    /// The session is over; the connection is closed. Terminal.
    SessionClosed,
}

/// What the shell must do after handing the driver one event.
#[derive(Clone, Copy, Debug, PartialEq, Eq, Structural)]
pub enum ProtocolAction {
    /// Reply `ack`, run one recording window (start, the fixed tick
    /// sequence, stop, persist, reply `fin`) and report back through
    /// [`ProtocolDriver::window_finished`].
    BeginRecording,
    /// Accept a fresh connection for the next configuration.
    NextConfiguration,
    /// No configurations remain: close the connection for good.
    CloseSession,
    /// Protocol violation: abort the session and close the connection.
    Abort,
}

/// The control-protocol driver.
#[derive(Clone, Copy, Debug, PartialEq, Eq, Structural)]
pub struct ProtocolDriver {
    /// Current session state.
    pub state: SessionState,
    /// Configurations not yet finished, the current one included.
    pub configs_remaining: u64,
}

/// The transition one received line causes: the driver afterwards, and what
/// the shell must do. A start command in `AwaitingCommand` begins a window;
/// a finish command advances to the next configuration or closes the
/// session; everything else — any unknown token, or any line outside
/// `AwaitingCommand` — aborts the session.
pub open spec fn spec_handle_line(d: ProtocolDriver, line: Seq<char>) -> (
    ProtocolDriver,
    ProtocolAction,
) {
    if d.state == SessionState::AwaitingCommand && line == "startTestReq"@ {
        (
            ProtocolDriver { state: SessionState::Recording, ..d },
            ProtocolAction::BeginRecording,
        )
    } else if d.state == SessionState::AwaitingCommand && line == "finished recording"@ {
        if d.configs_remaining > 1 {
            (
                ProtocolDriver {
                    state: SessionState::AwaitingCommand,
                    configs_remaining: (d.configs_remaining - 1) as u64,
                },
                ProtocolAction::NextConfiguration,
            )
        } else {
            (
                ProtocolDriver { state: SessionState::SessionClosed, ..d },
                ProtocolAction::CloseSession,
            )
        }
    } else {
        (ProtocolDriver { state: SessionState::SessionClosed, ..d }, ProtocolAction::Abort)
    }
}

impl ProtocolDriver {
    /// A fresh driver awaiting its first command, with `configs`
    /// configurations left to serve.
    pub fn new(configs: u64) -> (r: ProtocolDriver)
        ensures
            r.state == SessionState::AwaitingCommand,
            r.configs_remaining == configs,
    {
        ProtocolDriver { state: SessionState::AwaitingCommand, configs_remaining: configs }
    }

    /// Feeds the driver one received line, without its terminating newline,
    /// and returns what the shell must do next.
    pub fn handle_line(&mut self, line: &str) -> (a: ProtocolAction)
        ensures
            (*final(self), a) == spec_handle_line(*old(self), line@),
    {
        let awaiting = self.state == SessionState::AwaitingCommand;
        if awaiting && str_eq(line, "startTestReq") {
            self.state = SessionState::Recording;
            ProtocolAction::BeginRecording
        } else if awaiting && str_eq(line, "finished recording") {
            if self.configs_remaining > 1 {
                self.configs_remaining = self.configs_remaining - 1;
                ProtocolAction::NextConfiguration
            } else {
                self.state = SessionState::SessionClosed;
                ProtocolAction::CloseSession
            }
        } else {
            self.state = SessionState::SessionClosed;
            ProtocolAction::Abort
        }
    }

    /// Reports that the running window has completed (its ticks ran, the
    /// accumulator was stopped and persisted, `fin` was sent): the driver
    /// awaits the next command.
    pub fn window_finished(&mut self)
        requires
            old(self).state == SessionState::Recording,
        ensures
            final(self).state == SessionState::AwaitingCommand,
            final(self).configs_remaining == old(self).configs_remaining,
    {
        self.state = SessionState::AwaitingCommand;
    }
}

/// A start command in `AwaitingCommand` is acknowledged and starts exactly
/// one recording window; the configuration count is untouched.
pub proof fn lemma_start_begins_window(d: ProtocolDriver, line: Seq<char>)
    requires
        d.state == SessionState::AwaitingCommand,
        line == "startTestReq"@,
    ensures
        spec_handle_line(d, line).1 == ProtocolAction::BeginRecording,
        spec_handle_line(d, line).0.state == SessionState::Recording,
        spec_handle_line(d, line).0.configs_remaining == d.configs_remaining,
{
    reveal_strlit("startTestReq");
    reveal_strlit("finished recording");
}

/// A finish command in `AwaitingCommand` terminates the session when no
/// further configuration remains, and otherwise advances to the next one.
pub proof fn lemma_finished_terminates(d: ProtocolDriver, line: Seq<char>)
    requires
        d.state == SessionState::AwaitingCommand,
        line == "finished recording"@,
    ensures
        d.configs_remaining <= 1 ==> spec_handle_line(d, line) == (
            ProtocolDriver { state: SessionState::SessionClosed, ..d },
            ProtocolAction::CloseSession,
        ),
        d.configs_remaining > 1 ==> spec_handle_line(d, line).1
            == ProtocolAction::NextConfiguration,
{
    reveal_strlit("startTestReq");
    reveal_strlit("finished recording");
    assert("startTestReq"@.len() == 12);
    assert("finished recording"@.len() == 18);
    assert(line != "startTestReq"@);
}

/// Any token other than the two protocol commands aborts the session —
/// never a silent ignore.
pub proof fn lemma_unknown_token_aborts(d: ProtocolDriver, line: Seq<char>)
    requires
        d.state == SessionState::AwaitingCommand,
        line != "startTestReq"@,
        line != "finished recording"@,
    ensures
        spec_handle_line(d, line).1 == ProtocolAction::Abort,
        spec_handle_line(d, line).0.state == SessionState::SessionClosed,
{
}

} // verus!
