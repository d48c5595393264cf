//! Connection control as a state machine. The caller performs each action
//! (connect, sleep, configure the socket, read, tear down) and reports what
//! happened as the next event; the machine decides what comes next.
use crate::frame::{pending, records, FrameDecoder};
use serde_json::Value;
use vstd::prelude::*;

verus! {

/// Fixed delay between connection attempts, in milliseconds.
pub const RECONNECT_DELAY_MS: u64 = 5000;

/// Socket read timeout, in seconds.
pub const READ_TIMEOUT_SECS: u64 = 60;

/// Socket write timeout, in seconds.
pub const WRITE_TIMEOUT_SECS: u64 = 15;

/// Pause before reading again after a timeout or would-block, in milliseconds.
pub const STALL_PAUSE_MS: u64 = 10;

#[derive(Debug, Clone, Copy, PartialEq, Eq, Structural)]
pub enum ConnectionState {
    Disconnected,
    Connecting,
    Connected,
    Draining,
}

/// What happened as a result of the last action.
#[derive(Debug, Clone, Copy, PartialEq, Eq, Structural)]
pub enum ConnEvent {
    /// The service starts.
    Begin,
    ConnectFailed,
    ConnectSucceeded,
    /// The delay after a failed attempt is over.
    BackoffElapsed,
    /// A read returned bytes.
    Data,
    /// A read timed out or would block.
    Stalled,
    /// A read hit end of stream or a hard I/O error.
    Closed,
    /// The socket has been closed and the partial frame discarded.
    TornDown,
}

/// What the caller is to do next.
#[derive(Debug, Clone, Copy, PartialEq, Eq, Structural)]
pub enum ConnAction {
    Connect,
    /// Sleep this many milliseconds, then report `BackoffElapsed`.
    Backoff(u64),
    /// Set the socket's read and write timeouts (seconds), then read.
    Configure(u64, u64),
    Read,
    /// Sleep this many milliseconds, then read again.
    PauseRead(u64),
    /// Close the socket, drop the partial frame, then report `TornDown`.
    TearDown,
    /// The event does not apply in this state.
    Ignore,
}

/// The transition table: the next state and the action to take.
pub open spec fn transition(s: ConnectionState, e: ConnEvent) -> (ConnectionState, ConnAction) {
    match (s, e) {
        (ConnectionState::Disconnected, ConnEvent::Begin) => (
            ConnectionState::Connecting,
            ConnAction::Connect,
        ),
        (ConnectionState::Disconnected, ConnEvent::BackoffElapsed) => (
            ConnectionState::Connecting,
            ConnAction::Connect,
        ),
        (ConnectionState::Connecting, ConnEvent::ConnectFailed) => (
            ConnectionState::Disconnected,
            ConnAction::Backoff(RECONNECT_DELAY_MS),
        ),
        (ConnectionState::Connecting, ConnEvent::ConnectSucceeded) => (
            ConnectionState::Connected,
            ConnAction::Configure(READ_TIMEOUT_SECS, WRITE_TIMEOUT_SECS),
        ),
        (ConnectionState::Connected, ConnEvent::Data) => (
            ConnectionState::Connected,
            ConnAction::Read,
        ),
        (ConnectionState::Connected, ConnEvent::Stalled) => (
            ConnectionState::Connected,
            ConnAction::PauseRead(STALL_PAUSE_MS),
        ),
        (ConnectionState::Connected, ConnEvent::Closed) => (
            ConnectionState::Draining,
            ConnAction::TearDown,
        ),
        (ConnectionState::Draining, ConnEvent::TornDown) => (
            ConnectionState::Connecting,
            ConnAction::Connect,
        ),
        _ => (s, ConnAction::Ignore),
    }
}

/// Whether an action reads from the socket or prepares it for reading.
pub open spec fn streams(a: ConnAction) -> bool {
    match a {
        ConnAction::Configure(_, _) | ConnAction::Read | ConnAction::PauseRead(_) => true,
        _ => false,
    }
}

/// The next state and action after event `e` in state `s`.
pub fn next_step(s: ConnectionState, e: ConnEvent) -> (r: (ConnectionState, ConnAction))
    ensures
        r == transition(s, e),
        streams(r.1) ==> r.0 == ConnectionState::Connected,
        r.1 is Configure ==> s == ConnectionState::Connecting && e == ConnEvent::ConnectSucceeded,
        r.1 is Backoff ==> e == ConnEvent::ConnectFailed,
{
    match (s, e) {
        (ConnectionState::Disconnected, ConnEvent::Begin) => (
            ConnectionState::Connecting,
            ConnAction::Connect,
        ),
        (ConnectionState::Disconnected, ConnEvent::BackoffElapsed) => (
            ConnectionState::Connecting,
            ConnAction::Connect,
        ),
        (ConnectionState::Connecting, ConnEvent::ConnectFailed) => (
            ConnectionState::Disconnected,
            ConnAction::Backoff(RECONNECT_DELAY_MS),
        ),
        (ConnectionState::Connecting, ConnEvent::ConnectSucceeded) => (
            ConnectionState::Connected,
            ConnAction::Configure(READ_TIMEOUT_SECS, WRITE_TIMEOUT_SECS),
        ),
        (ConnectionState::Connected, ConnEvent::Data) => (
            ConnectionState::Connected,
            ConnAction::Read,
        ),
        (ConnectionState::Connected, ConnEvent::Stalled) => (
            ConnectionState::Connected,
            ConnAction::PauseRead(STALL_PAUSE_MS),
        ),
        (ConnectionState::Connected, ConnEvent::Closed) => (
            ConnectionState::Draining,
            ConnAction::TearDown,
        ),
        (ConnectionState::Draining, ConnEvent::TornDown) => (
            ConnectionState::Connecting,
            ConnAction::Connect,
        ),
        _ => (s, ConnAction::Ignore),
    }
}

/// The states and actions that a run of events produces from state `s`.
pub open spec fn run_actions(s: ConnectionState, events: Seq<ConnEvent>) -> Seq<ConnAction>
    decreases events.len(),
{
    if events.len() == 0 {
        Seq::empty()
    } else {
        let (t, a) = transition(s, events[0]);
        seq![a] + run_actions(t, events.drop_first())
    }
}

/// Reading never starts before a successful connect: in any run of events from
/// `Disconnected`, the first action that reads or prepares reading is the
/// `Configure` that follows a `ConnectSucceeded`.
pub proof fn lemma_no_read_before_connect(events: Seq<ConnEvent>, i: int)
    requires
        0 <= i < events.len(),
        streams(run_actions(ConnectionState::Disconnected, events)[i]),
        forall|j: int|
            0 <= j < i ==> !streams(#[trigger] run_actions(ConnectionState::Disconnected, events)[j]),
    ensures
        run_actions(ConnectionState::Disconnected, events)[i] == ConnAction::Configure(
            READ_TIMEOUT_SECS,
            WRITE_TIMEOUT_SECS,
        ),
        events[i] == ConnEvent::ConnectSucceeded,
{
    lemma_unstreamed_prefix(ConnectionState::Disconnected, events, i);
}

pub proof fn lemma_run_actions_len(s: ConnectionState, events: Seq<ConnEvent>)
    ensures
        run_actions(s, events).len() == events.len(),
    decreases events.len(),
{
    if events.len() > 0 {
        lemma_run_actions_len(transition(s, events[0]).0, events.drop_first());
    }
}

/// States that can be reached without any streaming action.
pub open spec fn before_streaming(s: ConnectionState) -> bool {
    s == ConnectionState::Disconnected || s == ConnectionState::Connecting
}

proof fn lemma_unstreamed_prefix(s: ConnectionState, events: Seq<ConnEvent>, i: int)
    requires
        before_streaming(s),
        0 <= i < events.len(),
        streams(run_actions(s, events)[i]),
        forall|j: int| 0 <= j < i ==> !streams(#[trigger] run_actions(s, events)[j]),
    ensures
        run_actions(s, events)[i] == ConnAction::Configure(READ_TIMEOUT_SECS, WRITE_TIMEOUT_SECS),
        events[i] == ConnEvent::ConnectSucceeded,
    decreases i,
{
    let (t, a) = transition(s, events[0]);
    let rest = events.drop_first();
    lemma_run_actions_len(t, rest);
    assert(run_actions(s, events) == seq![a] + run_actions(t, rest));
    assert(run_actions(s, events)[0] == a);
    if i > 0 {
        assert(!streams(run_actions(s, events)[0]));
        assert forall|j: int| 0 <= j < i - 1 implies !streams(#[trigger] run_actions(t, rest)[j]) by {
            assert(run_actions(s, events)[j + 1] == run_actions(t, rest)[j]);
        }
        assert(run_actions(s, events)[i] == run_actions(t, rest)[i - 1]);
        lemma_unstreamed_prefix(t, rest, i - 1);
    }
}

/// Drives one connection's lifecycle and owns its frame decoder.
pub struct ConnectionManager {
    state: ConnectionState,
    decoder: FrameDecoder,
}

impl ConnectionManager {
    pub closed spec fn state_of(&self) -> ConnectionState {
        self.state
    }

    /// The bytes of the incomplete frame held for this connection.
    pub closed spec fn buffered_bytes(&self) -> Seq<u8> {
        self.decoder.view()
    }

    pub closed spec fn wf(&self) -> bool {
        self.decoder.wf()
    }

    pub fn new() -> (r: ConnectionManager)
        ensures
            r.wf(),
            r.state_of() == ConnectionState::Disconnected,
            r.buffered_bytes() == Seq::<u8>::empty(),
    {
        ConnectionManager { state: ConnectionState::Disconnected, decoder: FrameDecoder::new() }
    }

    pub fn state(&self) -> (r: ConnectionState)
        ensures
            r == self.state_of(),
    {
        self.state
    }

    /// Takes an event, moves to the next state and returns the action to
    /// perform. Tearing down discards the partial frame.
    pub fn handle(&mut self, e: ConnEvent) -> (a: ConnAction)
        requires
            old(self).wf(),
        ensures
            final(self).wf(),
            (final(self).state_of(), a) == transition(old(self).state_of(), e),
            a == ConnAction::TearDown ==> final(self).buffered_bytes() == Seq::<u8>::empty(),
            a != ConnAction::TearDown ==> final(self).buffered_bytes() == old(
                self,
            ).buffered_bytes(),
    {
        let (s, a) = next_step(self.state, e);
        self.state = s;
        if a == ConnAction::TearDown {
            self.decoder = FrameDecoder::new();
        }
        a
    }

    /// Feeds bytes read from the socket to the decoder and returns the records
    /// they complete. Bytes that arrive while not connected are ignored.
    pub fn on_data(&mut self, chunk: &[u8]) -> (out: Vec<Value>)
        requires
            old(self).wf(),
        ensures
            final(self).wf(),
            final(self).state_of() == old(self).state_of(),
            old(self).state_of() == ConnectionState::Connected ==> out@ == records(
                old(self).buffered_bytes() + chunk@,
            ) && final(self).buffered_bytes() == pending(old(self).buffered_bytes() + chunk@),
            old(self).state_of() != ConnectionState::Connected ==> out@.len() == 0
                && final(self).buffered_bytes() == old(self).buffered_bytes(),
    {
        if self.state == ConnectionState::Connected {
            self.decoder.append(chunk)
        } else {
            Vec::new()
        }
    }
}

} // verus!
