//! The steady-state event loop of the swarm orchestrator.
//!
//! Once bootstrapped, the orchestrator selects between two sources: outbound
//! application messages and swarm events. Every decision is the step function
//! here: an outbound message becomes a publish of the wire envelope on this
//! node's own topic; the first established connection to a peer subscribes to
//! that peer's topic and announces the peer to the application exactly once;
//! a gossip message is decoded and delivered, or dropped if malformed. The
//! surrounding loop only performs the returned actions.

use vstd::prelude::*;
use vstd::seq_lib::*;
use crate::envelope::NetworkEvent;
use crate::envelope::NetworkEventModel;
use crate::envelope::spec_encode_event;
use crate::envelope::spec_decode_event;
use crate::envelope::encode_event;
use crate::envelope::decode_event;
use vstd::utf8::encode_utf8;

verus! {

/// One input of the steady-state loop: an outbound application message, or a
/// normalized swarm event.
pub enum SteadyInput {
    /// The application handed a serialized payload to send.
    LocalMessage(Vec<u8>),
    /// A connection to the named peer was established.
    Connected(String),
    /// A gossip message arrived, with its raw bytes.
    GossipMessage(Vec<u8>),
    /// A local listen address was confirmed; logged.
    ListenAddr(String),
    /// An outgoing connection failed; logged, never fatal here.
    ConnectionError(String),
    /// A relay, hole-punch, identify or liveness event; logged.
    ProtocolEvent,
    /// Anything else.
    Other,
}

/// Mathematical model of a steady-state input.
pub enum SteadyInputModel {
    LocalMessage(Seq<u8>),
    Connected(Seq<char>),
    GossipMessage(Seq<u8>),
    Quiet,
}

impl View for SteadyInput {
    type V = SteadyInputModel;

    open spec fn view(&self) -> SteadyInputModel {
        match self {
            SteadyInput::LocalMessage(m) => SteadyInputModel::LocalMessage(m@),
            SteadyInput::Connected(p) => SteadyInputModel::Connected(p@),
            SteadyInput::GossipMessage(d) => SteadyInputModel::GossipMessage(d@),
            SteadyInput::ListenAddr(_) => SteadyInputModel::Quiet,
            SteadyInput::ConnectionError(_) => SteadyInputModel::Quiet,
            SteadyInput::ProtocolEvent => SteadyInputModel::Quiet,
            SteadyInput::Other => SteadyInputModel::Quiet,
        }
    }
}

/// One action the loop must perform: publish bytes on a topic, subscribe to
/// a topic, or deliver an envelope to the application's inbound channel.
#[derive(Debug, PartialEq)]
pub enum Action {
    Publish(String, Vec<u8>),
    Subscribe(String),
    Deliver(NetworkEvent<Vec<u8>>),
}

/// Mathematical model of an action.
pub enum ActionModel {
    Publish(Seq<char>, Seq<u8>),
    Subscribe(Seq<char>),
    Deliver(NetworkEventModel<Seq<u8>>),
}

impl View for Action {
    type V = ActionModel;

    open spec fn view(&self) -> ActionModel {
        match self {
            Action::Publish(t, d) => ActionModel::Publish(t@, d@),
            Action::Subscribe(t) => ActionModel::Subscribe(t@),
            Action::Deliver(ev) => ActionModel::Deliver(ev@),
        }
    }
}

/// Mathematical model of the orchestrator: this node's identifier and the
/// peers already connected, in connection order.
pub struct OrchestratorModel {
    pub self_id: Seq<char>,
    pub connected: Seq<Seq<char>>,
}

/// The steady-state orchestrator: this node's identifier and the set of
/// peers it has seen a connection to.
pub struct Orchestrator {
    self_id: String,
    connected: Vec<String>,
}

impl View for Orchestrator {
    type V = OrchestratorModel;

    closed spec fn view(&self) -> OrchestratorModel {
        OrchestratorModel {
            self_id: self.self_id@,
            connected: self.connected@.map_values(|p: String| p@),
        }
    }
}

/// What one step does to the model, and the actions it returns, in order.
pub open spec fn spec_steady_step(st: OrchestratorModel, input: SteadyInputModel) -> (
    OrchestratorModel,
    Seq<ActionModel>,
) {
    match input {
        SteadyInputModel::LocalMessage(m) => (
            st,
            seq![
                ActionModel::Publish(
                    st.self_id,
                    spec_encode_event(NetworkEventModel::Event(st.self_id, m)),
                ),
            ],
        ),
        SteadyInputModel::Connected(p) => if st.connected.contains(p) {
            (st, Seq::empty())
        } else {
            (
                OrchestratorModel { self_id: st.self_id, connected: st.connected.push(p) },
                seq![
                    ActionModel::Subscribe(p),
                    ActionModel::Deliver(NetworkEventModel::NewConnection(p)),
                ],
            )
        },
        SteadyInputModel::GossipMessage(d) => match spec_decode_event(d) {
            Some(ev) => (st, seq![ActionModel::Deliver(ev)]),
            None => (st, Seq::empty()),
        },
        SteadyInputModel::Quiet => (st, Seq::empty()),
    }
}

impl Orchestrator {
    /// Well-formedness: no peer is recorded twice, and this node's
    /// identifier fits the wire format's length field.
    pub open spec fn wf(&self) -> bool {
        self@.connected.no_duplicates() && encode_utf8(self@.self_id).len() < 0x1_0000_0000
    }

    /// A fresh orchestrator for this node: no peer connected yet.
    pub fn new(self_id: String) -> (s: Self)
        requires
            encode_utf8(self_id@).len() < 0x1_0000_0000,
        ensures
            s@.self_id == self_id@,
            s@.connected.len() == 0,
            s.wf(),
    {
        let s = Orchestrator { self_id, connected: Vec::new() };
        proof {
            assert(s@.connected =~= Seq::<Seq<char>>::empty());
        }
        s
    }

    /// Whether a connection to `peer` has been seen.
    fn knows_peer(&self, peer: &String) -> (r: bool)
        ensures
            r == self@.connected.contains(peer@),
    {
        let mut i: usize = 0;
        while i < self.connected.len()
            invariant
                i <= self.connected.len(),
                forall|k: int| 0 <= k < i ==> self.connected@[k]@ != peer@,
            decreases self.connected.len() - i,
        {
            if self.connected[i].eq(peer) {
                proof {
                    assert(self@.connected[i as int] == peer@);
                }
                return true;
            }
            i += 1;
        }
        proof {
            assert(forall|k: int| 0 <= k < self@.connected.len() ==> self@.connected[k] != peer@);
        }
        false
    }

    /// One turn of the steady-state loop: reads one input and returns the
    /// actions to perform, in order, as [`spec_steady_step`] says.
    pub fn steady_step(&mut self, input: SteadyInput) -> (acts: Vec<Action>)
        requires
            old(self).wf(),
            input matches SteadyInput::LocalMessage(m) ==> m@.len() < 0x1_0000_0000,
        ensures
            final(self).wf(),
            final(self)@ == spec_steady_step(old(self)@, input@).0,
            acts@.map_values(|a: Action| a@) == spec_steady_step(old(self)@, input@).1,
    {
        let ghost st0 = self@;
        let ghost inp = input@;
        match input {
            SteadyInput::LocalMessage(m) => {
                let ev = NetworkEvent::Event(self.self_id.clone(), m);
                let bytes = encode_event(&ev);
                let mut acts: Vec<Action> = Vec::new();
                acts.push(Action::Publish(self.self_id.clone(), bytes));
                proof {
                    assert(acts@.map_values(|a: Action| a@) =~= spec_steady_step(st0, inp).1);
                }
                acts
            },
            SteadyInput::Connected(p) => {
                if self.knows_peer(&p) {
                    let acts: Vec<Action> = Vec::new();
                    proof {
                        assert(acts@.map_values(|a: Action| a@) =~= spec_steady_step(st0, inp).1);
                    }
                    acts
                } else {
                    let ghost before = self@.connected;
                    self.connected.push(p.clone());
                    let mut acts: Vec<Action> = Vec::new();
                    acts.push(Action::Subscribe(p.clone()));
                    acts.push(Action::Deliver(NetworkEvent::NewConnection(p)));
                    proof {
                        assert(self@.connected =~= before.push(inp->Connected_0));
                        assert(acts@.map_values(|a: Action| a@) =~= spec_steady_step(st0, inp).1);
                    }
                    acts
                }
            },
            SteadyInput::GossipMessage(d) => {
                match decode_event(&d) {
                    Some(ev) => {
                        let mut acts: Vec<Action> = Vec::new();
                        acts.push(Action::Deliver(ev));
                        proof {
                            assert(acts@.map_values(|a: Action| a@) =~= spec_steady_step(
                                st0,
                                inp,
                            ).1);
                        }
                        acts
                    },
                    None => {
                        let acts: Vec<Action> = Vec::new();
                        proof {
                            assert(acts@.map_values(|a: Action| a@) =~= spec_steady_step(
                                st0,
                                inp,
                            ).1);
                        }
                        acts
                    },
                }
            },
            _ => {
                let acts: Vec<Action> = Vec::new();
                proof {
                    assert(acts@.map_values(|a: Action| a@) =~= spec_steady_step(st0, inp).1);
                }
                acts
            },
        }
    }
}

/// A whole run of the loop: the final model and every action, in order.
pub open spec fn spec_run(st: OrchestratorModel, inputs: Seq<SteadyInputModel>) -> (
    OrchestratorModel,
    Seq<ActionModel>,
)
    decreases inputs.len(),
{
    if inputs.len() == 0 {
        (st, Seq::empty())
    } else {
        let first = spec_steady_step(st, inputs[0]);
        let rest = spec_run(first.0, inputs.drop_first());
        (rest.0, first.1 + rest.1)
    }
}

/// The envelopes a sequence of actions delivers to the application, in
/// order.
pub open spec fn deliveries(acts: Seq<ActionModel>) -> Seq<NetworkEventModel<Seq<u8>>>
    decreases acts.len(),
{
    if acts.len() == 0 {
        Seq::empty()
    } else {
        match acts[0] {
            ActionModel::Deliver(ev) => seq![ev] + deliveries(acts.drop_first()),
            _ => deliveries(acts.drop_first()),
        }
    }
}

/// The messages a sequence of actions publishes, in order: topic and bytes.
pub open spec fn publishes(acts: Seq<ActionModel>) -> Seq<(Seq<char>, Seq<u8>)>
    decreases acts.len(),
{
    if acts.len() == 0 {
        Seq::empty()
    } else {
        match acts[0] {
            ActionModel::Publish(t, d) => seq![(t, d)] + publishes(acts.drop_first()),
            _ => publishes(acts.drop_first()),
        }
    }
}

/// Publishes distribute over concatenation.
proof fn lemma_publishes_concat(a: Seq<ActionModel>, b: Seq<ActionModel>)
    ensures
        publishes(a + b) == publishes(a) + publishes(b),
    decreases a.len(),
{
    if a.len() == 0 {
        assert(a + b =~= b);
        assert(publishes(a) + publishes(b) =~= publishes(b));
    } else {
        assert((a + b).drop_first() =~= a.drop_first() + b);
        lemma_publishes_concat(a.drop_first(), b);
        assert(publishes(a + b) =~= publishes(a) + publishes(b));
    }
}

/// Outbound order is kept: a run over a sequence of outbound application
/// messages publishes exactly one envelope per message, on this node's own
/// topic, in the order the messages were read.
pub proof fn lemma_publishes_in_order(st: OrchestratorModel, msgs: Seq<Seq<u8>>)
    ensures
        publishes(
            spec_run(st, msgs.map_values(|m: Seq<u8>| SteadyInputModel::LocalMessage(m))).1,
        ) == msgs.map_values(
            |m: Seq<u8>|
                (st.self_id, spec_encode_event(NetworkEventModel::<Seq<u8>>::Event(st.self_id, m))),
        ),
    decreases msgs.len(),
{
    reveal_with_fuel(publishes, 3);
    let inputs = msgs.map_values(|m: Seq<u8>| SteadyInputModel::LocalMessage(m));
    if msgs.len() == 0 {
        assert(publishes(spec_run(st, inputs).1) =~= msgs.map_values(
            |m: Seq<u8>|
                (st.self_id, spec_encode_event(NetworkEventModel::<Seq<u8>>::Event(st.self_id, m))),
        ));
    } else {
        let first = spec_steady_step(st, inputs[0]);
        let tail = inputs.drop_first();
        assert(tail =~= msgs.drop_first().map_values(
            |m: Seq<u8>| SteadyInputModel::LocalMessage(m),
        ));
        assert(first.0 == st);
        lemma_publishes_concat(first.1, spec_run(st, tail).1);
        lemma_publishes_in_order(st, msgs.drop_first());
        assert(first.1 =~= seq![
            ActionModel::Publish(
                st.self_id,
                spec_encode_event(NetworkEventModel::Event(st.self_id, msgs[0])),
            ),
        ]);
        assert(publishes(first.1) =~= seq![
            (st.self_id, spec_encode_event(NetworkEventModel::<Seq<u8>>::Event(st.self_id, msgs[0]))),
        ]);
        assert(publishes(spec_run(st, inputs).1) =~= msgs.map_values(
            |m: Seq<u8>|
                (st.self_id, spec_encode_event(NetworkEventModel::<Seq<u8>>::Event(st.self_id, m))),
        ));
    }
}

/// Deliveries distribute over concatenation.
proof fn lemma_deliveries_concat(a: Seq<ActionModel>, b: Seq<ActionModel>)
    ensures
        deliveries(a + b) == deliveries(a) + deliveries(b),
    decreases a.len(),
{
    if a.len() == 0 {
        assert(a + b =~= b);
        assert(deliveries(a) + deliveries(b) =~= deliveries(b));
    } else {
        assert((a + b).drop_first() =~= a.drop_first() + b);
        lemma_deliveries_concat(a.drop_first(), b);
        assert(deliveries(a + b) =~= deliveries(a) + deliveries(b));
    }
}

/// Whether a delivered envelope is the announcement of `p`.
pub open spec fn is_announcement(ev: NetworkEventModel<Seq<u8>>, p: Seq<char>) -> bool {
    ev == NetworkEventModel::<Seq<u8>>::NewConnection(p)
}

/// Whether a delivered envelope carries a payload claimed to come from `p`.
pub open spec fn is_payload_from(ev: NetworkEventModel<Seq<u8>>, p: Seq<char>) -> bool {
    ev matches NetworkEventModel::Event(q, _) && q == p
}

/// How many announcements of `p` a delivery sequence holds.
pub open spec fn announcement_count(outs: Seq<NetworkEventModel<Seq<u8>>>, p: Seq<char>) -> nat
    decreases outs.len(),
{
    if outs.len() == 0 {
        0
    } else {
        (if is_announcement(outs[0], p) {
            1nat
        } else {
            0nat
        }) + announcement_count(outs.drop_first(), p)
    }
}

/// Counting distributes over concatenation.
proof fn lemma_announcement_count_concat(
    a: Seq<NetworkEventModel<Seq<u8>>>,
    b: Seq<NetworkEventModel<Seq<u8>>>,
    p: Seq<char>,
)
    ensures
        announcement_count(a + b, p) == announcement_count(a, p) + announcement_count(b, p),
    decreases a.len(),
{
    if a.len() == 0 {
        assert(a + b =~= b);
    } else {
        assert((a + b).drop_first() =~= a.drop_first() + b);
        lemma_announcement_count_concat(a.drop_first(), b, p);
    }
}

/// Every payload claimed to come from `p` is delivered only after an
/// announcement of `p` was delivered.
pub open spec fn announced_first(outs: Seq<NetworkEventModel<Seq<u8>>>, p: Seq<char>) -> bool {
    forall|k: int|
        0 <= k < outs.len() && is_payload_from(#[trigger] outs[k], p) ==> exists|j: int|
            0 <= j < k && is_announcement(outs[j], p)
}

/// The environment of a steady-state run: gossip never carries an
/// announcement envelope. Announcements are generated locally, never
/// published, so a decodable gossip message is always a payload event.
pub open spec fn no_forged_announcements(inputs: Seq<SteadyInputModel>) -> bool {
    forall|i: int|
        0 <= i < inputs.len() ==> match #[trigger] inputs[i] {
            SteadyInputModel::GossipMessage(d) => !(spec_decode_event(d) matches Some(
                NetworkEventModel::NewConnection(_),
            )),
            _ => true,
        }
}

/// The environment of a steady-state run, for one peer `p`: a gossip
/// message carrying a payload from `p` arrives only after a connection to
/// `p` was established, because the subscription to `p`'s topic happens at
/// that connection.
pub open spec fn gossip_follows_connection(inputs: Seq<SteadyInputModel>, p: Seq<char>) -> bool {
    forall|i: int|
        0 <= i < inputs.len() ==> match #[trigger] inputs[i] {
            SteadyInputModel::GossipMessage(d) => (match spec_decode_event(d) {
                Some(ev) => is_payload_from(ev, p) ==> exists|j: int|
                    0 <= j < i && inputs[j] == SteadyInputModel::Connected(p),
                None => true,
            }),
            _ => true,
        }
}

/// Restricting the assumptions to the tail of a run.
proof fn lemma_assumptions_tail(inputs: Seq<SteadyInputModel>, p: Seq<char>)
    requires
        inputs.len() > 0,
        no_forged_announcements(inputs),
    ensures
        no_forged_announcements(inputs.drop_first()),
        gossip_follows_connection(inputs, p) && inputs[0] != SteadyInputModel::Connected(p)
            ==> gossip_follows_connection(inputs.drop_first(), p),
{
    let tail = inputs.drop_first();
    assert forall|i: int| 0 <= i < tail.len() implies match #[trigger] tail[i] {
        SteadyInputModel::GossipMessage(d) => !(spec_decode_event(d) matches Some(
            NetworkEventModel::NewConnection(_),
        )),
        _ => true,
    } by {
        assert(tail[i] == inputs[i + 1]);
    }
    if gossip_follows_connection(inputs, p) && inputs[0] != SteadyInputModel::Connected(p) {
        assert forall|i: int| 0 <= i < tail.len() implies match #[trigger] tail[i] {
            SteadyInputModel::GossipMessage(d) => (match spec_decode_event(d) {
                Some(ev) => is_payload_from(ev, p) ==> exists|j: int|
                    0 <= j < i && tail[j] == SteadyInputModel::Connected(p),
                None => true,
            }),
            _ => true,
        } by {
            assert(tail[i] == inputs[i + 1]);
            match tail[i] {
                SteadyInputModel::GossipMessage(d) => {
                    match spec_decode_event(d) {
                        Some(ev) => {
                            if is_payload_from(ev, p) {
                                let j = choose|j: int|
                                    0 <= j < i + 1 && inputs[j] == SteadyInputModel::Connected(p);
                                assert(j != 0);
                                assert(tail[j - 1] == SteadyInputModel::Connected(p));
                            }
                        },
                        None => {},
                    }
                },
                _ => {},
            }
        }
    }
}

/// Deliveries of each action shape a step returns.
proof fn lemma_deliveries_forms(
    t: Seq<char>,
    d: Seq<u8>,
    p: Seq<char>,
    ev: NetworkEventModel<Seq<u8>>,
)
    ensures
        deliveries(Seq::<ActionModel>::empty()) == Seq::<NetworkEventModel<Seq<u8>>>::empty(),
        deliveries(seq![ActionModel::Publish(t, d)]) == Seq::<
            NetworkEventModel<Seq<u8>>,
        >::empty(),
        deliveries(seq![ActionModel::Subscribe(p), ActionModel::Deliver(ev)]) == seq![ev],
        deliveries(seq![ActionModel::Deliver(ev)]) == seq![ev],
{
    reveal_with_fuel(deliveries, 3);
    assert(seq![ActionModel::Publish(t, d)].drop_first() =~= Seq::<ActionModel>::empty());
    assert(seq![ActionModel::Subscribe(p), ActionModel::Deliver(ev)].drop_first() =~= seq![
        ActionModel::Deliver(ev),
    ]);
    assert(seq![ActionModel::Deliver(ev)].drop_first() =~= Seq::<ActionModel>::empty());
    assert(deliveries(seq![ActionModel::Deliver(ev)]) =~= seq![ev]);
    assert(deliveries(seq![ActionModel::Subscribe(p), ActionModel::Deliver(ev)]) =~= seq![ev]);
}

/// Announcement counts of the empty and singleton delivery sequences.
proof fn lemma_count_forms(ev: NetworkEventModel<Seq<u8>>, p: Seq<char>)
    ensures
        announcement_count(Seq::<NetworkEventModel<Seq<u8>>>::empty(), p) == 0,
        is_announcement(ev, p) ==> announcement_count(seq![ev], p) == 1,
        !is_announcement(ev, p) ==> announcement_count(seq![ev], p) == 0,
{
    reveal_with_fuel(announcement_count, 2);
    assert(seq![ev].drop_first() =~= Seq::<NetworkEventModel<Seq<u8>>>::empty());
}

/// The connection announcement is unique and comes first. For any run of
/// the steady-state loop from a state that does not yet know peer `p`, under
/// the gossip environment above: at most one announcement of `p` is ever
/// delivered; exactly one is delivered if a connection to `p` is
/// established; and every payload from `p` is delivered only after the
/// announcement of `p`.
#[verifier::rlimit(100)]
pub proof fn lemma_announced_once_and_first(
    st: OrchestratorModel,
    inputs: Seq<SteadyInputModel>,
    p: Seq<char>,
)
    requires
        !st.connected.contains(p),
        no_forged_announcements(inputs),
        gossip_follows_connection(inputs, p),
    ensures
        announcement_count(deliveries(spec_run(st, inputs).1), p) <= 1,
        (exists|i: int|
            0 <= i < inputs.len() && inputs[i] == SteadyInputModel::Connected(p))
            ==> announcement_count(deliveries(spec_run(st, inputs).1), p) == 1,
        announced_first(deliveries(spec_run(st, inputs).1), p),
    decreases inputs.len(),
{
    if inputs.len() == 0 {
    } else {
        let first = spec_steady_step(st, inputs[0]);
        let st1 = first.0;
        let tail = inputs.drop_first();
        let rest = spec_run(st1, tail);
        let outs = deliveries(spec_run(st, inputs).1);
        lemma_deliveries_concat(first.1, rest.1);
        let head_outs = deliveries(first.1);
        let tail_outs = deliveries(rest.1);
        assert(outs =~= head_outs + tail_outs);
        lemma_announcement_count_concat(head_outs, tail_outs, p);
        lemma_assumptions_tail(inputs, p);
        match inputs[0] {
            SteadyInputModel::Connected(q) => {
                if q == p {
                    let ann = NetworkEventModel::<Seq<u8>>::NewConnection(p);
                    assert(first.1 =~= seq![ActionModel::Subscribe(p), ActionModel::Deliver(ann)]);
                    lemma_deliveries_forms(p, Seq::empty(), p, ann);
                    assert(head_outs == seq![ann]);
                    lemma_count_forms(ann, p);
                    assert(st1.connected[st.connected.len() as int] == p);
                    assert(st1.connected.contains(p));
                    lemma_connected_no_more_announcements(st1, tail, p);
                    assert(announcement_count(outs, p) == 1);
                    assert(exists|i: int|
                        0 <= i < inputs.len() && inputs[i] == SteadyInputModel::Connected(p)) by {
                        assert(inputs[0] == SteadyInputModel::Connected(p));
                    }
                    assert forall|k: int|
                        0 <= k < outs.len() && is_payload_from(#[trigger] outs[k], p) implies exists|
                        j: int,
                    | 0 <= j < k && is_announcement(outs[j], p) by {
                        assert(outs[0] == ann);
                        assert(!is_payload_from(outs[0], p));
                        assert(is_announcement(outs[0], p));
                    }
                } else {
                    if st.connected.contains(q) {
                        assert(first.1 =~= Seq::<ActionModel>::empty());
                        lemma_deliveries_forms(p, Seq::empty(), p, NetworkEventModel::NewConnection(p));
                        assert(head_outs == Seq::<NetworkEventModel<Seq<u8>>>::empty());
                        assert(st1 == st);
                    } else {
                        let ann = NetworkEventModel::<Seq<u8>>::NewConnection(q);
                        assert(first.1 =~= seq![
                            ActionModel::Subscribe(q),
                            ActionModel::Deliver(ann),
                        ]);
                        lemma_deliveries_forms(q, Seq::empty(), q, ann);
                        assert(head_outs == seq![ann]);
                        lemma_count_forms(ann, p);
                        assert(!is_announcement(ann, p));
                        assert(!st1.connected.contains(p)) by {
                            if st1.connected.contains(p) {
                                let j = choose|j: int|
                                    0 <= j < st1.connected.len() && st1.connected[j] == p;
                                if j < st.connected.len() {
                                    assert(st.connected[j] == p);
                                } else {
                                    assert(st1.connected[j] == q);
                                }
                            }
                        }
                    }
                    lemma_count_forms(NetworkEventModel::NewConnection(p), p);
                    assert(announcement_count(head_outs, p) == 0);
                    lemma_announced_once_and_first(st1, tail, p);
                    assert forall|k: int|
                        0 <= k < head_outs.len() implies !is_payload_from(
                        #[trigger] head_outs[k],
                        p,
                    ) by {}
                    lemma_prefix_no_payload_glue(head_outs, tail_outs, p);
                    assert((exists|i: int|
                        0 <= i < inputs.len() && inputs[i] == SteadyInputModel::Connected(p))
                        ==> announcement_count(outs, p) == 1) by {
                        if exists|i: int|
                            0 <= i < inputs.len() && inputs[i] == SteadyInputModel::Connected(p) {
                            let i = choose|i: int|
                                0 <= i < inputs.len() && inputs[i] == SteadyInputModel::Connected(
                                    p,
                                );
                            assert(i != 0);
                            assert(tail[i - 1] == SteadyInputModel::Connected(p));
                        }
                    }
                }
            },
            SteadyInputModel::GossipMessage(d) => {
                match spec_decode_event(d) {
                    Some(ev) => {
                        assert(first.1 =~= seq![ActionModel::Deliver(ev)]);
                        lemma_deliveries_forms(p, Seq::empty(), p, ev);
                        assert(head_outs == seq![ev]);
                        lemma_count_forms(ev, p);
                        match ev {
                            NetworkEventModel::NewConnection(_) => {
                                assert(false);
                            },
                            NetworkEventModel::Event(q, _) => {
                                if q == p {
                                    // a payload from p cannot arrive before a
                                    // connection to p: nothing precedes index 0
                                    let j = choose|j: int|
                                        0 <= j < 0 && inputs[j] == SteadyInputModel::Connected(p);
                                    assert(false);
                                }
                                assert(!is_announcement(ev, p));
                                assert(announcement_count(head_outs, p) == 0);
                                assert(st1 == st);
                                lemma_announced_once_and_first(st1, tail, p);
                                assert forall|k: int|
                                    0 <= k < head_outs.len() implies !is_payload_from(
                                    #[trigger] head_outs[k],
                                    p,
                                ) by {}
                                lemma_prefix_no_payload_glue(head_outs, tail_outs, p);
                                lemma_connected_shift(inputs, p);
                            },
                        }
                    },
                    None => {
                        assert(first.1 =~= Seq::<ActionModel>::empty());
                        lemma_deliveries_forms(p, Seq::empty(), p, NetworkEventModel::NewConnection(p));
                        assert(head_outs == Seq::<NetworkEventModel<Seq<u8>>>::empty());
                        lemma_count_forms(NetworkEventModel::NewConnection(p), p);
                        assert(st1 == st);
                        lemma_announced_once_and_first(st1, tail, p);
                        lemma_prefix_no_payload_glue(head_outs, tail_outs, p);
                        lemma_connected_shift(inputs, p);
                    },
                }
            },
            SteadyInputModel::LocalMessage(m) => {
                assert(first.1 =~= seq![
                    ActionModel::Publish(
                        st.self_id,
                        spec_encode_event(NetworkEventModel::Event(st.self_id, m)),
                    ),
                ]);
                lemma_deliveries_forms(
                    st.self_id,
                    spec_encode_event(NetworkEventModel::Event(st.self_id, m)),
                    p,
                    NetworkEventModel::NewConnection(p),
                );
                assert(head_outs == Seq::<NetworkEventModel<Seq<u8>>>::empty());
                lemma_count_forms(NetworkEventModel::NewConnection(p), p);
                assert(st1 == st);
                lemma_announced_once_and_first(st1, tail, p);
                lemma_prefix_no_payload_glue(head_outs, tail_outs, p);
                lemma_connected_shift(inputs, p);
            },
            SteadyInputModel::Quiet => {
                assert(first.1 =~= Seq::<ActionModel>::empty());
                lemma_deliveries_forms(p, Seq::empty(), p, NetworkEventModel::NewConnection(p));
                assert(head_outs == Seq::<NetworkEventModel<Seq<u8>>>::empty());
                lemma_count_forms(NetworkEventModel::NewConnection(p), p);
                assert(st1 == st);
                lemma_announced_once_and_first(st1, tail, p);
                lemma_prefix_no_payload_glue(head_outs, tail_outs, p);
                lemma_connected_shift(inputs, p);
            },
        }
    }
}

/// When the head of the run is not the connection to `p`, a connection to
/// `p` among the inputs stands in the tail.
proof fn lemma_connected_shift(inputs: Seq<SteadyInputModel>, p: Seq<char>)
    requires
        inputs.len() > 0,
        inputs[0] != SteadyInputModel::Connected(p),
    ensures
        (exists|i: int| 0 <= i < inputs.len() && inputs[i] == SteadyInputModel::Connected(p))
            ==> (exists|i: int|
            0 <= i < inputs.drop_first().len() && inputs.drop_first()[i]
                == SteadyInputModel::Connected(p)),
{
    if exists|i: int| 0 <= i < inputs.len() && inputs[i] == SteadyInputModel::Connected(p) {
        let i = choose|i: int|
            0 <= i < inputs.len() && inputs[i] == SteadyInputModel::Connected(p);
        assert(i != 0);
        assert(inputs.drop_first()[i - 1] == SteadyInputModel::Connected(p));
    }
}

/// Once `p` is recorded as connected, no further announcement of `p` is
/// ever delivered, whatever arrives.
#[verifier::rlimit(100)]
proof fn lemma_connected_no_more_announcements(
    st: OrchestratorModel,
    inputs: Seq<SteadyInputModel>,
    p: Seq<char>,
)
    requires
        st.connected.contains(p),
        no_forged_announcements(inputs),
    ensures
        announcement_count(deliveries(spec_run(st, inputs).1), p) == 0,
    decreases inputs.len(),
{
    if inputs.len() == 0 {
    } else {
        let first = spec_steady_step(st, inputs[0]);
        let st1 = first.0;
        let tail = inputs.drop_first();
        let rest = spec_run(st1, tail);
        lemma_deliveries_concat(first.1, rest.1);
        let head_outs = deliveries(first.1);
        let tail_outs = deliveries(rest.1);
        lemma_announcement_count_concat(head_outs, tail_outs, p);
        lemma_assumptions_tail(inputs, p);
        assert(st1.connected.contains(p)) by {
            let j = choose|j: int| 0 <= j < st.connected.len() && st.connected[j] == p;
            match inputs[0] {
                SteadyInputModel::Connected(q) => {
                    if !st.connected.contains(q) {
                        assert(st1.connected[j] == p);
                    }
                },
                _ => {},
            }
        }
        match inputs[0] {
            SteadyInputModel::Connected(q) => {
                if st.connected.contains(q) {
                    assert(first.1 =~= Seq::<ActionModel>::empty());
                    lemma_deliveries_forms(p, Seq::empty(), p, NetworkEventModel::NewConnection(p));
                    assert(head_outs == Seq::<NetworkEventModel<Seq<u8>>>::empty());
                    lemma_count_forms(NetworkEventModel::NewConnection(p), p);
                } else {
                    let ann = NetworkEventModel::<Seq<u8>>::NewConnection(q);
                    assert(q != p);
                    assert(first.1 =~= seq![ActionModel::Subscribe(q), ActionModel::Deliver(ann)]);
                    lemma_deliveries_forms(q, Seq::empty(), q, ann);
                    assert(head_outs == seq![ann]);
                    lemma_count_forms(ann, p);
                    assert(!is_announcement(ann, p));
                }
                assert(announcement_count(head_outs, p) == 0);
            },
            SteadyInputModel::GossipMessage(d) => {
                match spec_decode_event(d) {
                    Some(ev) => {
                        assert(first.1 =~= seq![ActionModel::Deliver(ev)]);
                        lemma_deliveries_forms(p, Seq::empty(), p, ev);
                        assert(head_outs == seq![ev]);
                        lemma_count_forms(ev, p);
                        assert(!(ev matches NetworkEventModel::NewConnection(_)));
                        assert(announcement_count(head_outs, p) == 0);
                    },
                    None => {
                        assert(first.1 =~= Seq::<ActionModel>::empty());
                        lemma_deliveries_forms(p, Seq::empty(), p, NetworkEventModel::NewConnection(p));
                        assert(head_outs == Seq::<NetworkEventModel<Seq<u8>>>::empty());
                        lemma_count_forms(NetworkEventModel::NewConnection(p), p);
                        assert(announcement_count(head_outs, p) == 0);
                    },
                }
            },
            SteadyInputModel::LocalMessage(m) => {
                assert(first.1 =~= seq![
                    ActionModel::Publish(
                        st.self_id,
                        spec_encode_event(NetworkEventModel::Event(st.self_id, m)),
                    ),
                ]);
                lemma_deliveries_forms(
                    st.self_id,
                    spec_encode_event(NetworkEventModel::Event(st.self_id, m)),
                    p,
                    NetworkEventModel::NewConnection(p),
                );
                assert(head_outs == Seq::<NetworkEventModel<Seq<u8>>>::empty());
                lemma_count_forms(NetworkEventModel::NewConnection(p), p);
                assert(announcement_count(head_outs, p) == 0);
            },
            SteadyInputModel::Quiet => {
                assert(first.1 =~= Seq::<ActionModel>::empty());
                lemma_deliveries_forms(p, Seq::empty(), p, NetworkEventModel::NewConnection(p));
                assert(head_outs == Seq::<NetworkEventModel<Seq<u8>>>::empty());
                lemma_count_forms(NetworkEventModel::NewConnection(p), p);
                assert(announcement_count(head_outs, p) == 0);
            },
        }
        lemma_connected_no_more_announcements(st1, tail, p);
    }
}

/// Glue for the induction: when the first step delivers no payload from `p`
/// and the rest of the run delivers payloads only after an announcement, the
/// whole run does too.
proof fn lemma_prefix_no_payload_glue(
    head_outs: Seq<NetworkEventModel<Seq<u8>>>,
    tail_outs: Seq<NetworkEventModel<Seq<u8>>>,
    p: Seq<char>,
)
    requires
        forall|k: int| 0 <= k < head_outs.len() ==> !is_payload_from(#[trigger] head_outs[k], p),
        announced_first(tail_outs, p),
    ensures
        announced_first(head_outs + tail_outs, p),
{
    let outs = head_outs + tail_outs;
    assert forall|k: int|
        0 <= k < outs.len() && is_payload_from(#[trigger] outs[k], p) implies exists|j: int|
        0 <= j < k && is_announcement(outs[j], p) by {
        assert(k >= head_outs.len());
        let kt = k - head_outs.len();
        assert(tail_outs[kt] == outs[k]);
        let jt = choose|jt: int| 0 <= jt < kt && is_announcement(tail_outs[jt], p);
        assert(outs[jt + head_outs.len()] == tail_outs[jt]);
        assert(is_announcement(outs[jt + head_outs.len()], p));
    }
}

} // verus!

