//! The client session: one state machine over `Disconnected`,
//! `Connecting` and `Connected(address)`. A connection attempt probes
//! the candidate addresses in a randomized order; once connected the
//! session is pinned to that one server until an I/O failure or an
//! explicit teardown disconnects it. A command is only ever built for a
//! connected session — a disconnected one is told so before any I/O is
//! attempted.

use vstd::prelude::*;

use rand::seq::SliceRandom;

use crate::message::{Command, Message, MessageView};

verus! {

/// The client's connection state. Exactly one active connection at a
/// time, guarded by this single state value rather than by separate
/// flags.
pub enum SessionState {
    Disconnected,
    Connecting,
    Connected { address: String },
}

/// The mathematical model of a [`SessionState`].
#[verifier::ext_equal]
pub enum SessionStateView {
    Disconnected,
    Connecting,
    Connected { address: Seq<char> },
}

impl View for SessionState {
    type V = SessionStateView;

    open spec fn view(&self) -> SessionStateView {
        match self {
            SessionState::Disconnected => SessionStateView::Disconnected,
            SessionState::Connecting => SessionStateView::Connecting,
            SessionState::Connected { address } => SessionStateView::Connected {
                address: address@,
            },
        }
    }
}

/// Why a session operation was refused.
#[derive(Clone, Copy, PartialEq, Eq, Structural, Debug)]
pub enum SessionError {
    /// A command was issued while no connection is live.
    NotConnected,
    /// A connection attempt was begun while one is live or underway.
    AlreadyActive,
}

/// The client session: its state and the configured candidate
/// addresses. The socket itself lives with the I/O loop, which keys it
/// to this state.
pub struct ClientSession {
    pub state: SessionState,
    pub candidates: Vec<String>,
}

/// The mathematical model of a [`ClientSession`].
#[verifier::ext_equal]
pub struct SessionView {
    pub state: SessionStateView,
    pub candidates: Seq<Seq<char>>,
}

impl View for ClientSession {
    type V = SessionView;

    open spec fn view(&self) -> SessionView {
        SessionView { state: self.state@, candidates: self.candidates.deep_view() }
    }
}

/// Relies on rand's `SliceRandom::shuffle`: a Fisher–Yates pass that
/// only swaps elements of the slice in place, so the result holds
/// exactly the input's elements; which order comes out depends on the
/// thread's generator.
#[verifier::external_body]
fn shuffle_strings(v: &mut Vec<String>)
    ensures
        final(v)@.to_multiset() == old(v)@.to_multiset(),
        final(v)@.len() == old(v)@.len(),
{
    v.shuffle(&mut rand::rng());
}

impl ClientSession {
    /// A fresh session over these candidate addresses, not connected.
    pub fn new(candidates: Vec<String>) -> (r: ClientSession)
        ensures
            r@ == (SessionView {
                state: SessionStateView::Disconnected,
                candidates: candidates.deep_view(),
            }),
    {
        ClientSession { state: SessionState::Disconnected, candidates }
    }

    /// Whether a connection is live.
    pub fn is_connected(&self) -> (r: bool)
        ensures
            r == (self@.state is Connected),
    {
        matches!(self.state, SessionState::Connected { .. })
    }

    /// Begins a connection attempt: valid only when disconnected. The
    /// candidates come back in a randomized probe order — a permutation
    /// of the configured list — and the session is `Connecting` until
    /// an attempt succeeds or the list is exhausted.
    pub fn init_begin(&mut self) -> (r: Result<Vec<String>, SessionError>)
        ensures
            r is Ok <==> old(self)@.state is Disconnected,
            r matches Ok(order) ==> final(self)@ == (SessionView {
                state: SessionStateView::Connecting,
                ..old(self)@
            }) && order@.to_multiset() == old(self).candidates@.to_multiset(),
            r is Err ==> final(self)@ == old(self)@ && r == Err::<Vec<String>, SessionError>(
                SessionError::AlreadyActive,
            ),
    {
        match &self.state {
            SessionState::Disconnected => {
                let mut order: Vec<String> = Vec::new();
                let mut i: usize = 0;
                while i < self.candidates.len()
                    invariant
                        0 <= i <= self.candidates.len(),
                        order@ =~= self.candidates@.subrange(0, i as int),
                    decreases self.candidates.len() - i,
                {
                    order.push(self.candidates[i].clone());
                    i = i + 1;
                }
                proof {
                    assert(order@ =~= self.candidates@);
                }
                shuffle_strings(&mut order);
                self.state = SessionState::Connecting;
                Ok(order)
            },
            _ => Err(SessionError::AlreadyActive),
        }
    }

    /// Records that the probe connected to `address` and exchanged its
    /// acknowledgement: the session is pinned to that server.
    pub fn connect_succeeded(&mut self, address: String)
        requires
            old(self)@.state is Connecting,
        ensures
            final(self)@ == (SessionView {
                state: SessionStateView::Connected { address: address@ },
                ..old(self)@
            }),
    {
        self.state = SessionState::Connected { address };
    }

    /// Records that every candidate failed: back to disconnected.
    pub fn connect_exhausted(&mut self)
        requires
            old(self)@.state is Connecting,
        ensures
            final(self)@ == (SessionView { state: SessionStateView::Disconnected, ..old(self)@ }),
    {
        self.state = SessionState::Disconnected;
    }

    /// Any I/O failure on the live connection disconnects the session;
    /// the socket is discarded and there is no implicit reconnect.
    pub fn on_io_failure(&mut self)
        ensures
            final(self)@ == (SessionView { state: SessionStateView::Disconnected, ..old(self)@ }),
    {
        self.state = SessionState::Disconnected;
    }

    /// Discards any connection and disconnects; valid from any state.
    pub fn teardown(&mut self)
        ensures
            final(self)@ == (SessionView { state: SessionStateView::Disconnected, ..old(self)@ }),
    {
        self.state = SessionState::Disconnected;
    }

    /// The put request for the live connection. A session that is not
    /// connected is refused here, before any I/O could be attempted.
    pub fn make_put(&self, key: &str, value: &str, timestamp: u64) -> (r: Result<
        Message,
        SessionError,
    >)
        ensures
            r is Ok <==> self@.state is Connected,
            r matches Ok(m) ==> m@ == (MessageView {
                command: Command::Put,
                key: key@,
                value: value@,
                timestamp,
            }),
            r is Err ==> r == Err::<Message, SessionError>(SessionError::NotConnected),
    {
        match &self.state {
            SessionState::Connected { .. } => Ok(
                Message::new(Command::Put, key.to_owned(), value.to_owned(), timestamp),
            ),
            _ => Err(SessionError::NotConnected),
        }
    }

    /// The get request for the live connection. A session that is not
    /// connected is refused here, before any I/O could be attempted.
    pub fn make_get(&self, key: &str, timestamp: u64) -> (r: Result<Message, SessionError>)
        ensures
            r is Ok <==> self@.state is Connected,
            r matches Ok(m) ==> m@ == (MessageView {
                command: Command::Get,
                key: key@,
                value: Seq::<char>::empty(),
                timestamp,
            }),
            r is Err ==> r == Err::<Message, SessionError>(SessionError::NotConnected),
    {
        match &self.state {
            SessionState::Connected { .. } => Ok(
                Message::new(Command::Get, key.to_owned(), String::new(), timestamp),
            ),
            _ => Err(SessionError::NotConnected),
        }
    }
}

/// The probe sent right after a connection attempt succeeds: an
/// acknowledgement exchange with no store effect.
pub fn make_probe_message(timestamp: u64) -> (m: Message)
    ensures
        m@ == (MessageView {
            command: Command::NewConnection,
            key: Seq::<char>::empty(),
            value: Seq::<char>::empty(),
            timestamp,
        }),
{
    Message::new(Command::NewConnection, String::new(), String::new(), timestamp)
}

} // verus!
