//! The peer store shared by the relay's event loop and the directory's HTTP
//! interface.
//!
//! The store records which peers currently hold a relay reservation, together
//! with the relay's own identity: its peer identifier and the list of
//! addresses it has been confirmed to listen on. Peer identifiers and
//! addresses are kept in their printable string form. The peer list holds
//! each identifier at most once; the address list is append-only for the
//! lifetime of a relay identity (setting a new identity starts a fresh,
//! empty list).

use vstd::prelude::*;
use vstd::seq_lib::*;

verus! {

/// The relay's own identity: its peer identifier and the addresses it has
/// been told it listens on.
pub struct RelayInfo {
    pub peer_id: String,
    pub addrs: Vec<String>,
}

/// Mathematical model of [`RelayInfo`]: the identifier and addresses as
/// character sequences.
pub struct RelayInfoModel {
    pub peer_id: Seq<char>,
    pub addrs: Seq<Seq<char>>,
}

impl View for RelayInfo {
    type V = RelayInfoModel;

    open spec fn view(&self) -> RelayInfoModel {
        RelayInfoModel { peer_id: self.peer_id@, addrs: self.addrs@.map_values(|a: String| a@) }
    }
}

impl Default for RelayInfo {
    /// An empty identity: no identifier, no addresses.
    fn default() -> (r: Self)
        ensures
            r@.peer_id.len() == 0,
            r@.addrs.len() == 0,
    {
        let r = RelayInfo { peer_id: String::new(), addrs: Vec::new() };
        proof {
            assert(r@.addrs =~= Seq::<Seq<char>>::empty());
        }
        r
    }
}

/// Mathematical model of the whole store: the reserved peers, in the order
/// their reservations were first accepted, and the relay's own identity.
pub struct StoreModel {
    pub peers: Seq<Seq<char>>,
    pub relay: RelayInfoModel,
}

/// One mutation of the store within a session, that is, between two calls
/// that set the relay identity.
pub enum SessionOp {
    AddPeer(Seq<char>),
    RemovePeer(Seq<char>),
    AppendRelayAddr(Seq<char>),
}

/// What one session operation does to the store model: adding records an
/// identifier not yet present, removing drops it, and appending extends the
/// relay's address list.
pub open spec fn apply_session_op(m: StoreModel, op: SessionOp) -> StoreModel {
    match op {
        SessionOp::AddPeer(p) => if m.peers.contains(p) {
            m
        } else {
            StoreModel { peers: m.peers.push(p), relay: m.relay }
        },
        SessionOp::RemovePeer(p) => StoreModel { peers: m.peers.remove_value(p), relay: m.relay },
        SessionOp::AppendRelayAddr(a) => StoreModel {
            peers: m.peers,
            relay: RelayInfoModel { peer_id: m.relay.peer_id, addrs: m.relay.addrs.push(a) },
        },
    }
}

/// A whole session: the operations applied in order.
pub open spec fn apply_session_ops(m: StoreModel, ops: Seq<SessionOp>) -> StoreModel
    decreases ops.len(),
{
    if ops.len() == 0 {
        m
    } else {
        apply_session_ops(apply_session_op(m, ops[0]), ops.drop_first())
    }
}

/// In-memory peer store. The single mutator is the relay's event loop; the
/// HTTP interface only copies views out.
pub struct MemoryPeerStore {
    peers: Vec<String>,
    relay: RelayInfo,
}

impl View for MemoryPeerStore {
    type V = StoreModel;

    closed spec fn view(&self) -> StoreModel {
        StoreModel { peers: self.peers@.map_values(|p: String| p@), relay: self.relay@ }
    }
}

impl MemoryPeerStore {
    /// Well-formedness: the peer list holds no identifier twice.
    pub open spec fn wf(&self) -> bool {
        self@.peers.no_duplicates()
    }

    /// An empty store.
    pub fn new() -> (s: Self)
        ensures
            s@.peers.len() == 0,
            s@.relay.peer_id.len() == 0,
            s@.relay.addrs.len() == 0,
            s.wf(),
    {
        let s = MemoryPeerStore { peers: Vec::new(), relay: RelayInfo::default() };
        proof {
            assert(s@.peers =~= Seq::<Seq<char>>::empty());
        }
        s
    }

    /// Whether `peer` already holds a reservation.
    pub fn contains_peer(&self, peer: &String) -> (r: bool)
        ensures
            r == self@.peers.contains(peer@),
    {
        let mut i: usize = 0;
        while i < self.peers.len()
            invariant
                i <= self.peers.len(),
                forall|k: int| 0 <= k < i ==> self.peers@[k]@ != peer@,
            decreases self.peers.len() - i,
        {
            if self.peers[i].eq(peer) {
                proof {
                    assert(self@.peers[i as int] == peer@);
                }
                return true;
            }
            i += 1;
        }
        proof {
            assert(forall|k: int| 0 <= k < self@.peers.len() ==> self@.peers[k] != peer@);
        }
        false
    }

    /// Records a reservation for `peer`. Adding an identifier already present
    /// leaves the store unchanged, so repeated reservations from one peer are
    /// recorded once.
    pub fn add(&mut self, peer: String)
        requires
            old(self).wf(),
        ensures
            final(self)@ == apply_session_op(old(self)@, SessionOp::AddPeer(peer@)),
            final(self).wf(),
    {
        if !self.contains_peer(&peer) {
            let ghost before = self.peers@;
            self.peers.push(peer);
            proof {
                assert(self@.peers =~= before.map_values(|p: String| p@).push(peer@));
            }
        }
    }

    /// Drops the reservation of `peer`, if it holds one.
    pub fn remove(&mut self, peer: String)
        requires
            old(self).wf(),
        ensures
            final(self)@ == apply_session_op(old(self)@, SessionOp::RemovePeer(peer@)),
            final(self).wf(),
    {
        let ghost before = self@.peers;
        let mut i: usize = 0;
        while i < self.peers.len()
            invariant
                i <= self.peers.len(),
                forall|k: int| 0 <= k < i ==> self.peers@[k]@ != peer@,
                self@.peers == before,
                before == old(self)@.peers,
                before.no_duplicates(),
                self.relay == old(self).relay,
            decreases self.peers.len() - i,
        {
            if self.peers[i].eq(&peer) {
                let ghost gi = i as int;
                proof {
                    assert(before[gi] == peer@);
                }
                self.peers.remove(i);
                proof {
                    lemma_remove_at_is_remove_value(before, gi, peer@);
                    assert(self@.peers =~= before.remove(gi));
                    before.remove_ensures(gi);
                }
                return ;
            }
            i += 1;
        }
        proof {
            assert forall|k: int| 0 <= k < before.len() implies before[k] != peer@ by {
                assert(before[k] == self.peers@[k]@);
            }
            assert(!before.contains(peer@));
            before.index_of_first_ensures(peer@);
        }
    }

    /// The current peer list, in reservation order.
    pub fn get_all(&self) -> (r: Vec<String>)
        ensures
            r@.map_values(|p: String| p@) == self@.peers,
            r@.len() == self@.peers.len(),
    {
        let mut r: Vec<String> = Vec::new();
        let mut i: usize = 0;
        while i < self.peers.len()
            invariant
                i <= self.peers.len(),
                r@.len() == i,
                forall|k: int| 0 <= k < i ==> r@[k]@ == self.peers@[k]@,
            decreases self.peers.len() - i,
        {
            r.push(self.peers[i].clone());
            i += 1;
        }
        proof {
            assert(r@.map_values(|p: String| p@) =~= self@.peers);
        }
        r
    }

    /// Installs the relay's own identifier, starting a fresh session: the
    /// address list is reset, the peer list is kept.
    pub fn set_relay_peer_id(&mut self, id: &String)
        requires
            old(self).wf(),
        ensures
            final(self)@.peers == old(self)@.peers,
            final(self)@.relay.peer_id == id@,
            final(self)@.relay.addrs.len() == 0,
            final(self).wf(),
    {
        self.relay = RelayInfo { peer_id: id.clone(), addrs: Vec::new() };
        proof {
            assert(self@.relay.addrs =~= Seq::<Seq<char>>::empty());
        }
    }

    /// Appends one confirmed listen address to the relay's identity.
    pub fn append_relay_addr(&mut self, addr: String)
        requires
            old(self).wf(),
        ensures
            final(self)@ == apply_session_op(old(self)@, SessionOp::AppendRelayAddr(addr@)),
            final(self)@.relay.addrs.len() == old(self)@.relay.addrs.len() + 1,
            final(self).wf(),
    {
        let ghost before = self.relay.addrs@;
        self.relay.addrs.push(addr);
        proof {
            assert(self@.relay.addrs =~= before.map_values(|a: String| a@).push(addr@));
        }
    }

    /// A copy of the relay's identity.
    pub fn get_relay(&self) -> (r: RelayInfo)
        ensures
            r@ == self@.relay,
    {
        let mut addrs: Vec<String> = Vec::new();
        let mut i: usize = 0;
        while i < self.relay.addrs.len()
            invariant
                i <= self.relay.addrs.len(),
                addrs@.len() == i,
                forall|k: int| 0 <= k < i ==> addrs@[k]@ == self.relay.addrs@[k]@,
            decreases self.relay.addrs.len() - i,
        {
            addrs.push(self.relay.addrs[i].clone());
            i += 1;
        }
        let r = RelayInfo { peer_id: self.relay.peer_id.clone(), addrs };
        proof {
            assert(r@.addrs =~= self@.relay.addrs);
        }
        r
    }
}

impl Default for MemoryPeerStore {
    /// An empty store.
    fn default() -> (s: Self)
        ensures
            s@.peers.len() == 0,
            s@.relay.peer_id.len() == 0,
            s@.relay.addrs.len() == 0,
            s.wf(),
    {
        MemoryPeerStore::new()
    }
}

/// Removing a member of a duplicate-free list at its position is what
/// `remove_value` does.
proof fn lemma_remove_at_is_remove_value(s: Seq<Seq<char>>, i: int, p: Seq<char>)
    requires
        s.no_duplicates(),
        0 <= i < s.len(),
        s[i] == p,
    ensures
        s.remove_value(p) == s.remove(i),
        s.remove(i).no_duplicates(),
{
    assert(s.contains(p));
    s.index_of_first_ensures(p);
    let j = s.index_of_first(p).unwrap();
    assert(s[j] == p);
    assert(j == i);
    s.remove_ensures(i);
}

/// How often `p` occurs in a peer list.
pub open spec fn occurrences(peers: Seq<Seq<char>>, p: Seq<char>) -> nat {
    peers.filter(|q: Seq<char>| q == p).len()
}

/// A duplicate-free list holds a member exactly once.
proof fn lemma_no_dup_occurrences(peers: Seq<Seq<char>>, p: Seq<char>)
    requires
        peers.no_duplicates(),
        peers.contains(p),
    ensures
        occurrences(peers, p) == 1,
    decreases peers.len(),
{
    let pred = |q: Seq<char>| q == p;
    reveal_with_fuel(Seq::filter, 2);
    let last = peers.last();
    let rest = peers.drop_last();
    assert(peers.filter(pred) == rest.filter(pred) + if pred(last) {
        seq![last]
    } else {
        Seq::<Seq<char>>::empty()
    });
    if last == p {
        assert(!rest.contains(p)) by {
            if rest.contains(p) {
                let j = choose|j: int| 0 <= j < rest.len() && rest[j] == p;
                assert(peers[j] == p && peers[peers.len() - 1] == p);
            }
        }
        lemma_no_occurrences(rest, p);
    } else {
        assert(rest.contains(p)) by {
            let j = choose|j: int| 0 <= j < peers.len() && peers[j] == p;
            assert(rest[j] == p);
        }
        lemma_no_dup_occurrences(rest, p);
    }
}

/// A list without `p` holds it zero times.
proof fn lemma_no_occurrences(peers: Seq<Seq<char>>, p: Seq<char>)
    requires
        !peers.contains(p),
    ensures
        occurrences(peers, p) == 0,
    decreases peers.len(),
{
    reveal_with_fuel(Seq::filter, 2);
    if peers.len() > 0 {
        let rest = peers.drop_last();
        assert(!rest.contains(p)) by {
            if rest.contains(p) {
                let j = choose|j: int| 0 <= j < rest.len() && rest[j] == p;
                assert(peers[j] == p);
            }
        }
        assert(peers[peers.len() - 1] != p);
        lemma_no_occurrences(rest, p);
    }
}

/// Recording the same reservation twice is the same as recording it once,
/// and afterwards the peer list holds that identifier exactly once.
pub proof fn lemma_add_idempotent(m: StoreModel, p: Seq<char>)
    requires
        m.peers.no_duplicates(),
    ensures
        apply_session_op(apply_session_op(m, SessionOp::AddPeer(p)), SessionOp::AddPeer(p))
            == apply_session_op(m, SessionOp::AddPeer(p)),
        occurrences(apply_session_op(m, SessionOp::AddPeer(p)).peers, p) == 1,
{
    let once = apply_session_op(m, SessionOp::AddPeer(p));
    assert(once.peers.contains(p)) by {
        if !m.peers.contains(p) {
            assert(once.peers[m.peers.len() as int] == p);
        }
    }
    assert(once.peers.no_duplicates());
    lemma_no_dup_occurrences(once.peers, p);
}

/// Within a session, the relay's address list never shrinks: whatever
/// operations run, its length never goes below what it was.
pub proof fn lemma_relay_addrs_monotonic(m: StoreModel, ops: Seq<SessionOp>)
    ensures
        apply_session_ops(m, ops).relay.addrs.len() >= m.relay.addrs.len(),
    decreases ops.len(),
{
    if ops.len() > 0 {
        let next = apply_session_op(m, ops[0]);
        assert(next.relay.addrs.len() >= m.relay.addrs.len());
        lemma_relay_addrs_monotonic(next, ops.drop_first());
    }
}

} // verus!
