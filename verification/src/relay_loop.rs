//! The relay directory service's event loop: what each swarm event does to
//! the shared peer store.
//!
//! The relay's loop is the store's sole mutator. An accepted reservation
//! records the reserving peer; a confirmed listen address extends the relay's
//! own address list; every other event is logged and changes nothing. The
//! surrounding task drives the swarm, takes the store's lock around each call
//! here, and races a one-shot cancellation signal against the loop.

use vstd::prelude::*;
use crate::store::MemoryPeerStore;
use crate::store::SessionOp;
use crate::store::apply_session_op;

verus! {

/// A relay swarm event, normalized to what the loop reads.
pub enum RelayInput {
    /// The relay accepted a reservation from the named peer.
    ReservationAccepted(String),
    /// One of the relay's own listen addresses was confirmed.
    NewListenAddr(String),
    /// Another relay protocol event; logged.
    OtherRelayEvent,
    /// Anything else.
    Other,
}

/// One turn of the relay's event loop: a reservation records its peer, a
/// confirmed listen address is appended to the relay's identity, everything
/// else leaves the store as it is.
pub fn relay_step(store: &mut MemoryPeerStore, input: &RelayInput)
    requires
        old(store).wf(),
    ensures
        final(store).wf(),
        input matches RelayInput::ReservationAccepted(p) ==> final(store)@ == apply_session_op(
            old(store)@,
            SessionOp::AddPeer(p@),
        ),
        input matches RelayInput::NewListenAddr(a) ==> final(store)@ == apply_session_op(
            old(store)@,
            SessionOp::AppendRelayAddr(a@),
        ),
        input is OtherRelayEvent || input is Other ==> final(store)@ == old(store)@,
{
    match input {
        RelayInput::ReservationAccepted(p) => {
            store.add(p.clone());
        },
        RelayInput::NewListenAddr(a) => {
            store.append_relay_addr(a.clone());
        },
        RelayInput::OtherRelayEvent => {},
        RelayInput::Other => {},
    }
}

} // verus!
