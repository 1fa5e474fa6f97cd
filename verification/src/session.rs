//! The decisions of the polling loops of `poll`, `log` and `serve`: when to
//! connect, when to read, how long to wait after a failed connection, when
//! to drop the session, and how many log rows have been written.  The
//! caller performs each step and reports how it went.
use vstd::prelude::*;
use vstd::string::*;
use crate::node::{any_error, NodeValue};
use crate::node::has_error;

verus! {

/// Seconds to wait before connecting again after a failed connection.
pub const RETRY_SECS: u64 = 2;

/// What the loop does next.
#[derive(Debug, Clone, Copy, PartialEq, Eq, Structural)]
pub enum Step {
    /// Open a session with the server.
    Connect,
    /// Read the nodes over the open session.
    Read,
}

/// The state of a polling loop.
pub struct PollLoop {
    connected: bool,
    rows_written: u64,
}

/// The state of a polling loop as values.
pub struct PollLoopView {
    pub connected: bool,
    pub rows_written: nat,
}

impl View for PollLoop {
    type V = PollLoopView;

    closed spec fn view(&self) -> PollLoopView {
        PollLoopView { connected: self.connected, rows_written: self.rows_written as nat }
    }
}

/// The step taken in a state.
pub open spec fn step_of(s: PollLoopView) -> Step {
    if s.connected {
        Step::Read
    } else {
        Step::Connect
    }
}

/// The error that the REST API reports after a round: a fixed message when
/// some reading reports an error, none otherwise.
pub open spec fn round_error(values: Seq<NodeValue>) -> Option<Seq<char>> {
    if any_error(values) {
        Some(read_errors_text())
    } else {
        None
    }
}

pub open spec fn read_errors_text() -> Seq<char> {
    seq![
        'O', 'n', 'e', ' ', 'o', 'r', ' ', 'm', 'o', 'r', 'e', ' ', 'r', 'e', 'a', 'd', ' ', 'e',
        'r', 'r', 'o', 'r', 's',
    ]
}

impl PollLoop {
    /// A loop that has not connected yet and has written no row.
    pub fn new() -> (r: PollLoop)
        ensures
            !r@.connected,
            r@.rows_written == 0,
    {
        PollLoop { connected: false, rows_written: 0 }
    }

    /// The number of log rows written so far.
    pub fn rows_written(&self) -> (r: u64)
        ensures
            r == self@.rows_written,
    {
        self.rows_written
    }

    /// What to do next: connect while there is no session, read while there
    /// is one.
    pub fn next_step(&self) -> (r: Step)
        ensures
            r == step_of(self@),
    {
        if self.connected {
            Step::Read
        } else {
            Step::Connect
        }
    }

    /// The session is open: read from now on.
    pub fn on_connected(&mut self)
        ensures
            final(self)@ == (PollLoopView { connected: true, rows_written: old(self)@.rows_written }),
    {
        self.connected = true;
    }

    /// Connecting failed: stay without a session and wait the returned
    /// number of seconds before trying again.
    pub fn on_connect_failed(&mut self) -> (r: u64)
        ensures
            final(self)@ == (PollLoopView { connected: false, rows_written: old(self)@.rows_written }),
            r == RETRY_SECS,
    {
        self.connected = false;
        RETRY_SECS
    }

    /// A round of reads came back with `values`: keep the session unless
    /// some reading reports an error, in which case drop it and connect
    /// again.  Returns whether the session was dropped.
    pub fn on_read(&mut self, values: &Vec<NodeValue>) -> (r: bool)
        ensures
            r == any_error(values@),
            final(self)@ == (PollLoopView { connected: !r, rows_written: old(self)@.rows_written }),
    {
        let failed = has_error(values);
        self.connected = !failed;
        failed
    }

    /// A log row was written.
    pub fn on_row_written(&mut self)
        requires
            old(self)@.rows_written < u64::MAX,
        ensures
            final(self)@ == (PollLoopView {
                connected: old(self)@.connected,
                rows_written: old(self)@.rows_written + 1,
            }),
    {
        self.rows_written = self.rows_written + 1;
    }
}

/// The error the REST API reports after a round with `values`.
pub fn round_error_message(values: &Vec<NodeValue>) -> (r: Option<String>)
    ensures
        match r {
            Some(t) => round_error(values@) == Some(t@),
            None => round_error(values@) is None,
        },
{
    if has_error(values) {
        let text = "One or more read errors";
        proof {
            reveal_strlit("One or more read errors");
            assert(text@ =~= read_errors_text());
        }
        Some(String::from_str(text))
    } else {
        None
    }
}

/// After a round in which some reading reports an error, the next step is
/// to connect again; after a clean round, to read again.
pub proof fn reconnect_after_error(before: PollLoopView, values: Seq<NodeValue>, after: PollLoopView)
    requires
        before.connected,
        after == (PollLoopView { connected: !any_error(values), rows_written: before.rows_written }),
    ensures
        any_error(values) ==> step_of(after) == Step::Connect,
        !any_error(values) ==> step_of(after) == Step::Read,
        round_error(values) is Some <==> step_of(after) == Step::Connect,
{
}

} // verus!
