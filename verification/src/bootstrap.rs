//! The client's bootstrap protocol: the decisions of each stage.
//!
//! Bootstrapping runs through fixed stages: listen on an ephemeral local
//! socket, learn the relay candidates from the directory, dial candidates in
//! order until the observe-address exchange completes, reserve a slot on the
//! winning relay, then dial every other peer through its circuit. The
//! surrounding event loop performs the dials and waits; every decision it
//! takes — what each swarm event means in the current stage, which addresses
//! to dial, when a stage is complete or failed — stands here, with its
//! contract.

use vstd::prelude::*;
use crate::error::BlueError;
use crate::directory::WebPeerInfo;
use crate::directory::WebRelayInfo;

verus! {

/// A swarm event, normalized to what the bootstrap stages read: one arm per
/// inbound protocol category, with the values the decisions need as plain
/// strings.
pub enum SwarmInput {
    /// A local listen address was confirmed.
    NewListenAddr(String),
    /// A dial attempt started.
    Dialing,
    /// A connection to the named peer was established.
    ConnectionEstablished(String),
    /// An outgoing connection failed, with the diagnostic text.
    OutgoingConnectionError(String),
    /// The identify exchange told the remote our address.
    IdentifySent,
    /// The identify exchange reported our externally observed address.
    IdentifyReceived(String),
    /// The event stream ended.
    StreamClosed,
    /// The listen grace period ran out.
    GracePeriodElapsed,
    /// Any other protocol event; logged and otherwise ignored.
    Other,
}

/// The stages of the bootstrap protocol, in the order they run.
pub enum BootstrapStage {
    Listen,
    FetchDirectory,
    ObserveRelay,
    Reserve,
    DialPeers,
    Steady,
}

/// The successor of each bootstrap stage: the protocol runs each stage to
/// completion, in this order, and ends in the steady state.
pub fn next_stage(s: &BootstrapStage) -> (r: BootstrapStage)
    ensures
        s is Listen ==> r is FetchDirectory,
        s is FetchDirectory ==> r is ObserveRelay,
        s is ObserveRelay ==> r is Reserve,
        s is Reserve ==> r is DialPeers,
        s is DialPeers ==> r is Steady,
        s is Steady ==> r is Steady,
{
    match s {
        BootstrapStage::Listen => BootstrapStage::FetchDirectory,
        BootstrapStage::FetchDirectory => BootstrapStage::ObserveRelay,
        BootstrapStage::ObserveRelay => BootstrapStage::Reserve,
        BootstrapStage::Reserve => BootstrapStage::DialPeers,
        BootstrapStage::DialPeers => BootstrapStage::Steady,
        BootstrapStage::Steady => BootstrapStage::Steady,
    }
}

/// What the listen stage does with one event.
pub enum ListenStep {
    /// Keep waiting for further events.
    KeepWaiting,
    /// The grace period ran out: assume the socket listens on all interfaces.
    Done,
    /// The stage failed.
    Fail(BlueError),
}

/// The local listen address the client binds: every interface, an ephemeral
/// port.
pub fn client_listen_addr() -> (r: String)
    ensures
        r@ == "/ip4/0.0.0.0/tcp/0"@,
{
    String::from_str("/ip4/0.0.0.0/tcp/0")
}

/// One decision of the listen stage: address confirmations are awaited until
/// the grace period runs out; a closed stream or any foreign event is fatal.
/// The grace period is a heuristic, so the enumeration of listen addresses
/// may be incomplete when the stage ends.
pub fn listen_step(input: &SwarmInput) -> (r: ListenStep)
    ensures
        input is NewListenAddr ==> r is KeepWaiting,
        input is GracePeriodElapsed ==> r is Done,
        input is StreamClosed ==> (r matches ListenStep::Fail(e) && e matches BlueError::Local(m)
            && m@ == "swarm stream was closed"@),
        !(input is NewListenAddr) && !(input is GracePeriodElapsed) && !(input is StreamClosed)
            ==> (r matches ListenStep::Fail(e) && e matches BlueError::Local(m) && m@
            == "unexpected swarm event"@),
{
    match input {
        SwarmInput::NewListenAddr(_) => ListenStep::KeepWaiting,
        SwarmInput::GracePeriodElapsed => ListenStep::Done,
        SwarmInput::StreamClosed => ListenStep::Fail(
            BlueError::local_err(String::from_str("swarm stream was closed")),
        ),
        _ => ListenStep::Fail(BlueError::local_err(String::from_str("unexpected swarm event"))),
    }
}

/// The observe-address exchange with one relay candidate: complete once the
/// relay has both heard our address and told us our externally observed one.
pub struct ObserveState {
    pub told_relay_observed_addr: bool,
    pub learned_observed_addr: bool,
}

/// What the observe stage does with one event.
pub enum ObserveStep {
    /// Keep waiting for the two confirmations.
    KeepWaiting,
    /// Both confirmations arrived: this candidate won.
    Done,
    /// This candidate failed.
    Fail(BlueError),
}

impl ObserveState {
    /// A fresh exchange: neither confirmation seen.
    pub fn new() -> (s: Self)
        ensures
            !s.told_relay_observed_addr,
            !s.learned_observed_addr,
    {
        ObserveState { told_relay_observed_addr: false, learned_observed_addr: false }
    }

    /// One decision of the observe stage. An identify-sent event records
    /// that the relay heard our address; an identify-received event records
    /// that it told us ours; an outgoing connection error or a closed stream
    /// fails the candidate; everything else is awaited past. The stage is
    /// done exactly when both confirmations have been seen.
    pub fn step(&mut self, input: &SwarmInput) -> (r: ObserveStep)
        ensures
            final(self).told_relay_observed_addr == (old(self).told_relay_observed_addr || input
                is IdentifySent),
            final(self).learned_observed_addr == (old(self).learned_observed_addr || input
                is IdentifyReceived),
            input matches SwarmInput::OutgoingConnectionError(t) ==> (r matches ObserveStep::Fail(e)
                && e matches BlueError::Local(m) && m@ == t@),
            input is StreamClosed ==> (r matches ObserveStep::Fail(e) && e matches BlueError::Local(
                m,
            ) && m@ == "swarm stream was closed"@),
            !(input is OutgoingConnectionError) && !(input is StreamClosed) ==> (r is Done <==> (
            final(self).told_relay_observed_addr && final(self).learned_observed_addr)),
            !(input is OutgoingConnectionError) && !(input is StreamClosed) && !(
            final(self).told_relay_observed_addr && final(self).learned_observed_addr) ==> r
                is KeepWaiting,
    {
        match input {
            SwarmInput::IdentifySent => {
                self.told_relay_observed_addr = true;
            },
            SwarmInput::IdentifyReceived(_) => {
                self.learned_observed_addr = true;
            },
            SwarmInput::OutgoingConnectionError(t) => {
                return ObserveStep::Fail(BlueError::local_err(t.clone()));
            },
            SwarmInput::StreamClosed => {
                return ObserveStep::Fail(
                    BlueError::local_err(String::from_str("swarm stream was closed")),
                );
            },
            _ => {},
        }
        if self.told_relay_observed_addr && self.learned_observed_addr {
            ObserveStep::Done
        } else {
            ObserveStep::KeepWaiting
        }
    }
}

/// The relay candidate addresses, in directory order: each advertised
/// address joined with the relay's peer identifier.
pub fn relay_candidates(info: &WebRelayInfo) -> (r: Vec<String>)
    ensures
        r@.len() == info@.addrs.len(),
        forall|i: int| 0 <= i < r@.len() ==> r@[i]@ == info@.addrs[i] + "/p2p/"@
            + info@.peer_id,
{
    let mut r: Vec<String> = Vec::new();
    let mut i: usize = 0;
    while i < info.ips.len()
        invariant
            i <= info.ips.len(),
            info@.addrs == info.ips@.map_values(|a: String| a@),
            r@.len() == i,
            forall|k: int| 0 <= k < i ==> r@[k]@ == info@.addrs[k] + "/p2p/"@ + info@.peer_id,
        decreases info.ips.len() - i,
    {
        let a = info.ips[i].clone().concat("/p2p/").concat(info.peer_id.as_str());
        r.push(a);
        i += 1;
    }
    r
}

/// The circuit listen address on a relay: listening there asks the relay
/// for a reservation, so relayed dials can reach this node.
pub fn circuit_listen_addr(relay_addr: &String) -> (r: String)
    ensures
        r@ == relay_addr@ + "/p2p-circuit"@,
{
    relay_addr.clone().concat("/p2p-circuit")
}

/// The address that dials `peer` through the relay's circuit.
pub fn circuit_dial_addr(relay_addr: &String, peer: &String) -> (r: String)
    ensures
        r@ == relay_addr@ + "/p2p-circuit/p2p/"@ + peer@,
{
    let r = relay_addr.clone().concat("/p2p-circuit/p2p/").concat(peer.as_str());
    proof {
        reveal_strlit("/p2p-circuit/p2p/");
        assert(r@ =~= relay_addr@ + "/p2p-circuit/p2p/"@ + peer@);
    }
    r
}

/// The circuit addresses of every directory peer except this node itself,
/// in directory order.
pub open spec fn spec_dial_targets(
    peers: Seq<Seq<char>>,
    self_id: Seq<char>,
    relay_addr: Seq<char>,
) -> Seq<Seq<char>> {
    peers.filter(|p: Seq<char>| p != self_id).map_values(
        |p: Seq<char>| relay_addr + "/p2p-circuit/p2p/"@ + p,
    )
}

/// The dial plan after a relay is won: every peer the directory lists, this
/// node itself excluded, addressed through the relay's circuit. Dialing them
/// is best effort; a failed dial skips that peer and nothing else.
pub fn dial_targets(peers: &Vec<WebPeerInfo>, self_id: &String, relay_addr: &String) -> (r: Vec<
    String,
>)
    ensures
        r@.map_values(|t: String| t@) == spec_dial_targets(
            peers@.map_values(|w: WebPeerInfo| w@),
            self_id@,
            relay_addr@,
        ),
{
    let ghost all = peers@.map_values(|w: WebPeerInfo| w@);
    let mut r: Vec<String> = Vec::new();
    let mut i: usize = 0;
    while i < peers.len()
        invariant
            i <= peers.len(),
            all == peers@.map_values(|w: WebPeerInfo| w@),
            all.len() == peers@.len(),
            r@.map_values(|t: String| t@) == spec_dial_targets(
                all.subrange(0, i as int),
                self_id@,
                relay_addr@,
            ),
        decreases peers.len() - i,
    {
        let ghost prefix = all.subrange(0, i as int);
        let ghost sub1 = all.subrange(0, i + 1 as int);
        if !peers[i].addr.eq(self_id) {
            let t = circuit_dial_addr(relay_addr, &peers[i].addr);
            r.push(t);
            proof {
                reveal(Seq::filter);
                assert(sub1.drop_last() =~= prefix);
                assert(sub1.last() == all[i as int]);
                assert(all[i as int] != self_id@);
                assert(spec_dial_targets(sub1, self_id@, relay_addr@) =~= spec_dial_targets(
                    prefix,
                    self_id@,
                    relay_addr@,
                ).push(relay_addr@ + "/p2p-circuit/p2p/"@ + all[i as int]));
                assert(r@.map_values(|t: String| t@) =~= spec_dial_targets(
                    sub1,
                    self_id@,
                    relay_addr@,
                ));
            }
        } else {
            proof {
                reveal(Seq::filter);
                assert(sub1.drop_last() =~= prefix);
                assert(sub1.last() == all[i as int]);
                assert(all[i as int] == self_id@);
                assert(spec_dial_targets(sub1, self_id@, relay_addr@) =~= spec_dial_targets(
                    prefix,
                    self_id@,
                    relay_addr@,
                ));
            }
        }
        i += 1;
    }
    proof {
        assert(all.subrange(0, all.len() as int) =~= all);
    }
    r
}

} // verus!
