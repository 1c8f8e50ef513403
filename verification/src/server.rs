//! The server node: its role is fixed at construction, every inbound
//! frame is dispatched by command under that role, and whatever must
//! happen on the network afterwards — the replication fan-out, the
//! forward to the leader — is handed back as an explicit step for the
//! surrounding I/O loop to perform after the locks are released.

use vstd::prelude::*;
use vstd::string::StringExecFns;

use crate::codec::{
    decode, lemma_register_port_round_trip, parse_u16, parses_as_u16, push_udec, spec_decode,
    udec, DecodeError,
};
use crate::message::{Command, Message, MessageView};
use crate::registry::{no_duplicates, registered, FollowerRegistry};
use crate::responses::{
    build_not_found, build_ok_found, build_ok_inserted, build_ok_registered, build_ok_replicated,
    invalid_port_line, leader_no_replicate_line, new_connection_line,
    not_found_line, ok_found_line, ok_inserted_line, ok_registered_line, ok_replicated_line,
    only_leader_registers_line, parse_error_line, unknown_command_line,
};
use crate::store::KvStore;

verus! {

/// The mathematical model of a server node.
#[verifier::ext_equal]
pub struct NodeView {
    pub is_leader: bool,
    pub leader_port: u16,
    pub self_port: u16,
    pub db: Map<Seq<char>, Seq<char>>,
    pub followers: Seq<u16>,
}

/// A node: the store and the follower registry it owns, and its fixed
/// role. A node is the leader exactly when its own port is the
/// configured leader port; there is no runtime role transition.
pub struct ServerState {
    pub db: KvStore,
    pub is_leader: bool,
    pub leader_port: u16,
    pub self_port: u16,
    pub followers: FollowerRegistry,
}

impl View for ServerState {
    type V = NodeView;

    open spec fn view(&self) -> NodeView {
        NodeView {
            is_leader: self.is_leader,
            leader_port: self.leader_port,
            self_port: self.self_port,
            db: self.db@,
            followers: self.followers@,
        }
    }
}

pub open spec fn node_wf(n: NodeView) -> bool {
    no_duplicates(n.followers)
}

impl ServerState {
    pub open spec fn wf(&self) -> bool {
        node_wf(self@)
    }

    /// A fresh node on `port`, leader exactly when `port` is the
    /// configured leader port; empty store, empty registry.
    pub fn new(port: u16, leader_port: u16) -> (r: ServerState)
        ensures
            r@ == (NodeView {
                is_leader: port == leader_port,
                leader_port,
                self_port: port,
                db: Map::<Seq<char>, Seq<char>>::empty(),
                followers: Seq::<u16>::empty(),
            }),
            r.wf(),
    {
        let is_leader = port == leader_port;
        let r = ServerState {
            db: KvStore::new(),
            is_leader,
            leader_port,
            self_port: port,
            followers: FollowerRegistry::new(),
        };
        proof {
            assert(r@ =~= (NodeView {
                is_leader: port == leader_port,
                leader_port,
                self_port: port,
                db: Map::<Seq<char>, Seq<char>>::empty(),
                followers: Seq::<u16>::empty(),
            }));
        }
        r
    }

    /// Leader-side: record a follower's port, idempotently.
    pub fn register_follower(&mut self, port: u16)
        requires
            old(self).wf(),
        ensures
            final(self).wf(),
            final(self)@ == (NodeView { followers: registered(old(self)@.followers, port), ..old(self)@ }),
    {
        self.followers.register(port);
        proof {
            assert(self@ =~= (NodeView {
                followers: registered(old(self)@.followers, port),
                ..old(self)@
            }));
        }
    }
}

/// What a get returns: the stored value, or a not-found report that is
/// a normal answer rather than a fault.
pub open spec fn get_response(db: Map<Seq<char>, Seq<char>>, k: Seq<char>) -> Seq<char> {
    if db.contains_key(k) {
        ok_found_line(k, db[k])
    } else {
        not_found_line(k)
    }
}

/// Serves a get in either role. No side effects.
pub fn on_get(key: &str, state: &ServerState) -> (r: String)
    ensures
        r@ == get_response(state@.db, key@),
{
    match state.db.get(key) {
        Some(v) => build_ok_found(key, v.as_str()),
        None => build_not_found(key),
    }
}

/// How a node's state and response to a registration are determined.
pub open spec fn register_step(n: NodeView, port_str: Seq<char>) -> (NodeView, Seq<char>) {
    if !n.is_leader {
        (n, only_leader_registers_line())
    } else {
        match parses_as_u16(port_str) {
            Some(p) => (
                NodeView { followers: registered(n.followers, p), ..n },
                ok_registered_line(p),
            ),
            None => (n, invalid_port_line()),
        }
    }
}

/// Serves a registration: only the leader accepts one, and a port that
/// does not parse is rejected without touching the registry.
pub fn on_register(port_str: &str, state: &mut ServerState) -> (r: String)
    requires
        old(state).wf(),
    ensures
        final(state).wf(),
        final(state)@ == register_step(old(state)@, port_str@).0,
        r@ == register_step(old(state)@, port_str@).1,
{
    if !state.is_leader {
        return String::from_str("ERR: Only leader can register followers\n");
    }
    match parse_u16(port_str) {
        Some(p) => {
            state.register_follower(p);
            build_ok_registered(p)
        },
        None => String::from_str("ERR: Invalid port number\n"),
    }
}

/// How a node's state and response to a replicated write are determined.
pub open spec fn replicate_step(n: NodeView, k: Seq<char>, v: Seq<char>) -> (NodeView, Seq<char>) {
    if n.is_leader {
        (n, leader_no_replicate_line())
    } else {
        (NodeView { db: n.db.insert(k, v), ..n }, ok_replicated_line(k, v))
    }
}

/// Applies a replicated write: the only path that mutates a follower's
/// store. A leader never accepts one; the violation is reported, not a
/// crash.
pub fn on_replicate(key: &str, value: &str, state: &mut ServerState) -> (r: String)
    requires
        old(state).wf(),
    ensures
        final(state).wf(),
        final(state)@ == replicate_step(old(state)@, key@, value@).0,
        r@ == replicate_step(old(state)@, key@, value@).1,
{
    if state.is_leader {
        return String::from_str("ERR: Leader should not receive replicate commands\n");
    }
    state.db.put(key.to_owned(), value.to_owned());
    proof {
        assert(state@ =~= (NodeView { db: old(state)@.db.insert(key@, value@), ..old(state)@ }));
    }
    build_ok_replicated(key, value)
}

/// What remains to do after a put is applied locally.
pub enum PutStep {
    /// Leader path: stored; fan the replicate message out to this
    /// snapshot of the registry, then answer with `response`.
    Stored { response: String, replicate_to: Vec<u16>, replicate_msg: Message },
    /// Follower path: nothing stored; forward the message to the
    /// leader and relay its reply verbatim.
    Forward { leader_port: u16, forward_msg: Message },
}

/// The mathematical model of a [`PutStep`].
#[verifier::ext_equal]
pub enum PutStepView {
    Stored { response: Seq<char>, replicate_to: Seq<u16>, replicate_msg: MessageView },
    Forward { leader_port: u16, forward_msg: MessageView },
}

impl View for PutStep {
    type V = PutStepView;

    open spec fn view(&self) -> PutStepView {
        match self {
            PutStep::Stored { response, replicate_to, replicate_msg } => PutStepView::Stored {
                response: response@,
                replicate_to: replicate_to@,
                replicate_msg: replicate_msg@,
            },
            PutStep::Forward { leader_port, forward_msg } => PutStepView::Forward {
                leader_port: *leader_port,
                forward_msg: forward_msg@,
            },
        }
    }
}

/// How a node's state and put step are determined.
pub open spec fn put_step_spec(n: NodeView, k: Seq<char>, v: Seq<char>, ts: u64) -> (
    NodeView,
    PutStepView,
) {
    if n.is_leader {
        (
            NodeView { db: n.db.insert(k, v), ..n },
            PutStepView::Stored {
                response: ok_inserted_line(k, v),
                replicate_to: n.followers,
                replicate_msg: MessageView {
                    command: Command::Replicate,
                    key: k,
                    value: v,
                    timestamp: ts,
                },
            },
        )
    } else {
        (
            n,
            PutStepView::Forward {
                leader_port: n.leader_port,
                forward_msg: MessageView {
                    command: Command::Put,
                    key: k,
                    value: v,
                    timestamp: ts,
                },
            },
        )
    }
}

/// Serves a put. On the leader the write commits locally and the
/// registry snapshot to fan out to is handed back; on a follower
/// nothing changes locally and the message to forward is handed back.
pub fn on_put(key: &str, value: &str, timestamp: u64, state: &mut ServerState) -> (r: PutStep)
    requires
        old(state).wf(),
    ensures
        final(state).wf(),
        final(state)@ == put_step_spec(old(state)@, key@, value@, timestamp).0,
        r@ == put_step_spec(old(state)@, key@, value@, timestamp).1,
{
    if state.is_leader {
        state.db.put(key.to_owned(), value.to_owned());
        let replicate_to = state.followers.snapshot();
        let replicate_msg = Message::new(
            Command::Replicate,
            key.to_owned(),
            value.to_owned(),
            timestamp,
        );
        let response = build_ok_inserted(key, value);
        proof {
            assert(state@ =~= (NodeView {
                db: old(state)@.db.insert(key@, value@),
                ..old(state)@
            }));
        }
        PutStep::Stored { response, replicate_to, replicate_msg }
    } else {
        let forward_msg = Message::new(Command::Put, key.to_owned(), value.to_owned(), timestamp);
        PutStep::Forward { leader_port: state.leader_port, forward_msg }
    }
}

/// What the I/O loop must do with one inbound frame.
pub enum Step {
    /// Write the response back; nothing else.
    Reply { response: String },
    /// Leader put: send the replicate message to every port in the
    /// snapshot, then write the response back.
    ReplyAndReplicate { response: String, replicate_to: Vec<u16>, replicate_msg: Message },
    /// Follower put: forward the message to the leader and relay its
    /// reply verbatim (`ERR: Leader unreachable` if none can be had).
    ForwardPut { leader_port: u16, forward_msg: Message },
}

/// The mathematical model of a [`Step`].
#[verifier::ext_equal]
pub enum StepView {
    Reply { response: Seq<char> },
    ReplyAndReplicate { response: Seq<char>, replicate_to: Seq<u16>, replicate_msg: MessageView },
    ForwardPut { leader_port: u16, forward_msg: MessageView },
}

impl View for Step {
    type V = StepView;

    open spec fn view(&self) -> StepView {
        match self {
            Step::Reply { response } => StepView::Reply { response: response@ },
            Step::ReplyAndReplicate { response, replicate_to, replicate_msg } => {
                StepView::ReplyAndReplicate {
                    response: response@,
                    replicate_to: replicate_to@,
                    replicate_msg: replicate_msg@,
                }
            },
            Step::ForwardPut { leader_port, forward_msg } => StepView::ForwardPut {
                leader_port: *leader_port,
                forward_msg: forward_msg@,
            },
        }
    }
}

/// Role-aware dispatch of one decoded message.
pub open spec fn dispatch_step(n: NodeView, m: MessageView) -> (NodeView, StepView) {
    match m.command {
        Command::NewConnection => (n, StepView::Reply { response: new_connection_line() }),
        Command::Get => (n, StepView::Reply { response: get_response(n.db, m.key) }),
        Command::Put => {
            let r = put_step_spec(n, m.key, m.value, m.timestamp);
            (
                r.0,
                match r.1 {
                    PutStepView::Stored { response, replicate_to, replicate_msg } => {
                        StepView::ReplyAndReplicate { response, replicate_to, replicate_msg }
                    },
                    PutStepView::Forward { leader_port, forward_msg } => StepView::ForwardPut {
                        leader_port,
                        forward_msg,
                    },
                },
            )
        },
        Command::Register => {
            let r = register_step(n, m.value);
            (r.0, StepView::Reply { response: r.1 })
        },
        Command::Replicate => {
            let r = replicate_step(n, m.key, m.value);
            (r.0, StepView::Reply { response: r.1 })
        },
    }
}

/// Decode, then dispatch. A frame that does not decode is answered
/// with a structured error and changes nothing: the connection stays
/// open.
pub open spec fn handle_step(n: NodeView, input: Seq<char>) -> (NodeView, StepView) {
    match spec_decode(input) {
        Ok(m) => dispatch_step(n, m),
        Err(DecodeError::Malformed) => (n, StepView::Reply { response: parse_error_line() }),
        Err(DecodeError::UnknownCommand) => (
            n,
            StepView::Reply { response: unknown_command_line() },
        ),
    }
}

/// Handles one inbound frame: decodes it, dispatches it under the
/// node's role, and returns the step the I/O loop must take.
pub fn handle_frame(input: &str, state: &mut ServerState) -> (step: Step)
    requires
        old(state).wf(),
    ensures
        final(state).wf(),
        final(state)@ == handle_step(old(state)@, input@).0,
        step@ == handle_step(old(state)@, input@).1,
{
    match decode(input) {
        Err(DecodeError::Malformed) => Step::Reply {
            response: String::from_str("ERR: Failed to parse message\n"),
        },
        Err(DecodeError::UnknownCommand) => Step::Reply {
            response: String::from_str("ERR: Unknown command\n"),
        },
        Ok(msg) => match msg.command {
            Command::NewConnection => Step::Reply {
                response: String::from_str("New client connection received\n"),
            },
            Command::Get => Step::Reply { response: on_get(msg.key.as_str(), state) },
            Command::Put => match on_put(msg.key.as_str(), msg.value.as_str(), msg.timestamp, state) {
                PutStep::Stored { response, replicate_to, replicate_msg } => {
                    Step::ReplyAndReplicate { response, replicate_to, replicate_msg }
                },
                PutStep::Forward { leader_port, forward_msg } => Step::ForwardPut {
                    leader_port,
                    forward_msg,
                },
            },
            Command::Register => Step::Reply { response: on_register(msg.value.as_str(), state) },
            Command::Replicate => Step::Reply {
                response: on_replicate(msg.key.as_str(), msg.value.as_str(), state),
            },
        },
    }
}

/// The message a follower announces itself to the leader with, once,
/// at startup: its own port travels in the value field.
pub fn make_register_message(follower_port: u16, timestamp: u64) -> (m: Message)
    ensures
        m@ == (MessageView {
            command: Command::Register,
            key: Seq::<char>::empty(),
            value: udec(follower_port as nat),
            timestamp,
        }),
{
    let mut value = String::new();
    push_udec(follower_port as u64, &mut value);
    proof {
        assert(value@ =~= udec(follower_port as nat));
    }
    Message::new(Command::Register, String::new(), value, timestamp)
}

/// A follower's registration message, received by the leader, adds
/// exactly that follower's port to the registry and acknowledges it.
pub proof fn lemma_registration_round_trip(l: NodeView, p: u16, ts: u64)
    requires
        l.is_leader,
    ensures
        dispatch_step(
            l,
            MessageView {
                command: Command::Register,
                key: Seq::<char>::empty(),
                value: udec(p as nat),
                timestamp: ts,
            },
        ).0 == (NodeView { followers: registered(l.followers, p), ..l }),
        dispatch_step(
            l,
            MessageView {
                command: Command::Register,
                key: Seq::<char>::empty(),
                value: udec(p as nat),
                timestamp: ts,
            },
        ).1 == (StepView::Reply { response: ok_registered_line(p) }),
{
    lemma_register_port_round_trip(p);
}

/// A write accepted by the leader is immediately readable back from
/// it: for all keys and values, a put followed by a get on the leader
/// returns the value.
pub proof fn lemma_put_then_get(n: NodeView, k: Seq<char>, v: Seq<char>, ts: u64)
    requires
        n.is_leader,
    ensures
        get_response(put_step_spec(n, k, v, ts).0.db, k) == ok_found_line(k, v),
{
}

/// A key never written reads back as not found — a normal negative
/// answer, not a fault.
pub proof fn lemma_get_never_written(db: Map<Seq<char>, Seq<char>>, k: Seq<char>)
    requires
        !db.contains_key(k),
    ensures
        get_response(db, k) == not_found_line(k),
{
}

/// A put issued against a follower leaves the follower's own store
/// untouched and forwards an equivalent put to the leader, which
/// handles the forwarded message exactly as a put issued against it
/// directly.
pub proof fn lemma_follower_put_forwards(
    f: NodeView,
    l: NodeView,
    k: Seq<char>,
    v: Seq<char>,
    ts: u64,
)
    requires
        !f.is_leader,
        l.is_leader,
    ensures
        put_step_spec(f, k, v, ts).0 == f,
        put_step_spec(f, k, v, ts).1 == (PutStepView::Forward {
            leader_port: f.leader_port,
            forward_msg: MessageView { command: Command::Put, key: k, value: v, timestamp: ts },
        }),
        dispatch_step(l, put_step_spec(f, k, v, ts).1->Forward_forward_msg).0 == put_step_spec(
            l,
            k,
            v,
            ts,
        ).0,
        dispatch_step(l, put_step_spec(f, k, v, ts).1->Forward_forward_msg).1 matches
            StepView::ReplyAndReplicate { response, .. } && response == ok_inserted_line(k, v),
{
}

/// A replicated write applied at a follower mutates only that
/// follower's store: the registry is untouched and nothing is
/// forwarded anywhere.
pub proof fn lemma_replicate_local_only(f: NodeView, k: Seq<char>, v: Seq<char>, ts: u64)
    requires
        !f.is_leader,
    ensures
        dispatch_step(
            f,
            MessageView { command: Command::Replicate, key: k, value: v, timestamp: ts },
        ).0 == (NodeView { db: f.db.insert(k, v), ..f }),
        dispatch_step(
            f,
            MessageView { command: Command::Replicate, key: k, value: v, timestamp: ts },
        ).1 == (StepView::Reply { response: ok_replicated_line(k, v) }),
{
}

/// The store after a sequence of puts, applied in order.
pub open spec fn puts_applied(
    db: Map<Seq<char>, Seq<char>>,
    ps: Seq<(Seq<char>, Seq<char>)>,
) -> Map<Seq<char>, Seq<char>>
    decreases ps.len(),
{
    if ps.len() == 0 {
        db
    } else {
        puts_applied(db, ps.drop_last()).insert(ps.last().0, ps.last().1)
    }
}

/// Puts on pairwise distinct keys never lose one another's updates:
/// once all are applied, in any interleaving order the scheduler chose,
/// every one of the keys reads back as the value it was given.
pub proof fn lemma_distinct_puts_persist(
    db: Map<Seq<char>, Seq<char>>,
    ps: Seq<(Seq<char>, Seq<char>)>,
)
    requires
        forall|i: int, j: int| 0 <= i < j < ps.len() ==> (#[trigger] ps[i]).0 != (#[trigger] ps[j]).0,
    ensures
        forall|i: int|
            0 <= i < ps.len() ==> get_response(puts_applied(db, ps), (#[trigger] ps[i]).0)
                == ok_found_line(ps[i].0, ps[i].1),
    decreases ps.len(),
{
    if ps.len() > 0 {
        let prefix = ps.drop_last();
        let last = ps.last();
        let before = puts_applied(db, prefix);
        let after = puts_applied(db, ps);
        assert(forall|i: int, j: int|
            0 <= i < j < prefix.len() ==> (#[trigger] prefix[i]).0 != (#[trigger] prefix[j]).0) by {
            assert(forall|i: int| 0 <= i < prefix.len() ==> #[trigger] prefix[i] == ps[i]);
        }
        lemma_distinct_puts_persist(db, prefix);
        assert forall|i: int| 0 <= i < ps.len() implies get_response(after, (#[trigger] ps[i]).0)
            == ok_found_line(ps[i].0, ps[i].1) by {
            if i < ps.len() - 1 {
                assert(prefix[i] == ps[i]);
                assert(get_response(before, prefix[i].0) == ok_found_line(prefix[i].0, prefix[i].1));
                assert(ps[i].0 != last.0);
            } else {
                assert(ps[i] == last);
            }
        }
    }
}

} // verus!
