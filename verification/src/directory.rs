//! The directory's HTTP read interface: the two documents it serves, computed
//! from the peer store, and their JSON bodies.
//!
//! `GET /api/peers` answers with the list of reserved peers, one object per
//! peer; a relay without reservations answers with the empty list. `GET
//! /api/relay` answers with the relay's own identity. The serving task only
//! copies the store under its lock and hands the copy to the functions here;
//! rendering never holds the lock.

use vstd::prelude::*;
use vstd::utf8::encode_utf8;
use crate::store::MemoryPeerStore;
use crate::store::RelayInfo;
use crate::store::RelayInfoModel;

verus! {

/// One entry of the peer list document: a peer identifier.
pub struct WebPeerInfo {
    pub addr: String,
}

impl View for WebPeerInfo {
    type V = Seq<char>;

    open spec fn view(&self) -> Seq<char> {
        self.addr@
    }
}

impl From<&String> for WebPeerInfo {
    fn from(peer: &String) -> (r: Self) {
        WebPeerInfo { addr: peer.clone() }
    }
}

impl vstd::std_specs::convert::FromSpecImpl<&String> for WebPeerInfo {
    open spec fn obeys_from_spec() -> bool {
        true
    }

    open spec fn from_spec(peer: &String) -> Self {
        WebPeerInfo { addr: *peer }
    }
}

/// The relay self-description document: the relay's identifier and the
/// addresses it listens on.
pub struct WebRelayInfo {
    pub peer_id: String,
    pub ips: Vec<String>,
}

impl View for WebRelayInfo {
    type V = RelayInfoModel;

    open spec fn view(&self) -> RelayInfoModel {
        RelayInfoModel { peer_id: self.peer_id@, addrs: self.ips@.map_values(|a: String| a@) }
    }
}

impl From<RelayInfo> for WebRelayInfo {
    fn from(info: RelayInfo) -> (r: Self) {
        WebRelayInfo { peer_id: info.peer_id, ips: info.addrs }
    }
}

impl vstd::std_specs::convert::FromSpecImpl<RelayInfo> for WebRelayInfo {
    open spec fn obeys_from_spec() -> bool {
        true
    }

    open spec fn from_spec(info: RelayInfo) -> Self {
        WebRelayInfo { peer_id: info.peer_id, ips: info.addrs }
    }
}

/// The peer list document: one entry per reserved peer, in store order. A
/// store without reservations gives the empty list, never an error.
pub fn get_peer_list(store: &MemoryPeerStore) -> (r: Vec<WebPeerInfo>)
    ensures
        r@.len() == store@.peers.len(),
        forall|i: int| 0 <= i < r@.len() ==> r@[i]@ == store@.peers[i],
{
    let all = store.get_all();
    let mut r: Vec<WebPeerInfo> = Vec::new();
    let mut i: usize = 0;
    while i < all.len()
        invariant
            i <= all.len(),
            all@.map_values(|p: String| p@) == store@.peers,
            all@.len() == store@.peers.len(),
            r@.len() == i,
            forall|k: int| 0 <= k < i ==> r@[k]@ == store@.peers[k],
        decreases all.len() - i,
    {
        r.push(WebPeerInfo::from(&all[i]));
        i += 1;
    }
    r
}

/// The relay self-description document.
pub fn get_relay_info(store: &MemoryPeerStore) -> (r: WebRelayInfo)
    ensures
        r@ == store@.relay,
{
    let r = WebRelayInfo::from(store.get_relay());
    proof {
        assert(r@ =~~= store@.relay) by {
            assert(r@.addrs =~= store@.relay.addrs);
        }
    }
    r
}

/// A hexadecimal digit, lower case.
pub open spec fn hex_digit(n: u8) -> u8
    recommends
        n < 16,
{
    if n < 10 {
        (0x30 + n) as u8
    } else {
        (0x57 + n) as u8
    }
}

/// How one byte of a string appears inside a JSON string: quotes and
/// backslashes are escaped, control bytes become `\u00XX`, everything else
/// stands as it is.
pub open spec fn json_escape_byte(b: u8) -> Seq<u8> {
    if b == 0x22 {
        seq![0x5cu8, 0x22u8]
    } else if b == 0x5c {
        seq![0x5cu8, 0x5cu8]
    } else if b < 0x20 {
        seq![0x5cu8, 0x75u8, 0x30u8, 0x30u8, hex_digit(b / 16), hex_digit(b % 16)]
    } else {
        seq![b]
    }
}

/// A whole byte string escaped for JSON.
pub open spec fn json_escape(s: Seq<u8>) -> Seq<u8>
    decreases s.len(),
{
    if s.len() == 0 {
        Seq::empty()
    } else {
        json_escape_byte(s[0]) + json_escape(s.drop_first())
    }
}

/// Escaping distributes over concatenation.
proof fn lemma_json_escape_concat(a: Seq<u8>, b: Seq<u8>)
    ensures
        json_escape(a + b) == json_escape(a) + json_escape(b),
    decreases a.len(),
{
    if a.len() == 0 {
        assert(a + b =~= b);
        assert(json_escape(a) + json_escape(b) =~= json_escape(b));
    } else {
        assert((a + b).drop_first() =~= a.drop_first() + b);
        lemma_json_escape_concat(a.drop_first(), b);
        assert(json_escape(a + b) =~= json_escape(a) + json_escape(b));
    }
}

/// A JSON string: the escaped UTF-8 bytes of `s` between quotes.
pub open spec fn json_string(s: Seq<char>) -> Seq<u8> {
    seq![0x22u8] + json_escape(encode_utf8(s)) + seq![0x22u8]
}

/// The body of one peer list entry: `{"addr":<id>}`.
pub open spec fn spec_peer_entry_json(p: Seq<char>) -> Seq<u8> {
    seq![0x7bu8, 0x22u8, 0x61u8, 0x64u8, 0x64u8, 0x72u8, 0x22u8, 0x3au8] + json_string(p)
        + seq![0x7du8]
}

/// The elements of a JSON array, comma separated.
pub open spec fn spec_json_items(items: Seq<Seq<u8>>) -> Seq<u8>
    decreases items.len(),
{
    if items.len() == 0 {
        Seq::empty()
    } else if items.len() == 1 {
        items[0]
    } else {
        items[0] + seq![0x2cu8] + spec_json_items(items.drop_first())
    }
}

/// The peer list body: a JSON array of entries.
pub open spec fn spec_peer_list_json(peers: Seq<Seq<char>>) -> Seq<u8> {
    seq![0x5bu8] + spec_json_items(peers.map_values(|p: Seq<char>| spec_peer_entry_json(p)))
        + seq![0x5du8]
}

/// The relay document body:
/// `{"peer_id":<id>,"ips":[<addr>,...]}`.
pub open spec fn spec_relay_info_json(info: RelayInfoModel) -> Seq<u8> {
    seq![0x7bu8, 0x22u8, 0x70u8, 0x65u8, 0x65u8, 0x72u8, 0x5fu8, 0x69u8, 0x64u8, 0x22u8, 0x3au8]
        + json_string(info.peer_id)
        + seq![0x2cu8, 0x22u8, 0x69u8, 0x70u8, 0x73u8, 0x22u8, 0x3au8, 0x5bu8]
        + spec_json_items(info.addrs.map_values(|a: Seq<char>| json_string(a)))
        + seq![0x5du8, 0x7du8]
}

/// Appends the escaped UTF-8 bytes of `s` between quotes.
fn push_json_string(out: &mut Vec<u8>, s: &String)
    ensures
        final(out)@ == old(out)@ + json_string(s@),
{
    out.push(0x22);
    let bytes: Vec<u8> = vstd::slice::slice_to_vec(s.as_str().as_bytes());
    let ghost all = bytes@;
    let mut i: usize = 0;
    while i < bytes.len()
        invariant
            i <= bytes.len(),
            bytes@ == all,
            out@ == old(out)@ + seq![0x22u8] + json_escape(all.subrange(0, i as int)),
        decreases bytes.len() - i,
    {
        let b = bytes[i];
        if b == 0x22 {
            out.push(0x5c);
            out.push(0x22);
        } else if b == 0x5c {
            out.push(0x5c);
            out.push(0x5c);
        } else if b < 0x20 {
            out.push(0x5c);
            out.push(0x75);
            out.push(0x30);
            out.push(0x30);
            let hi = b / 16;
            let lo = b % 16;
            out.push(if hi < 10 { 0x30 + hi } else { 0x57 + hi });
            out.push(if lo < 10 { 0x30 + lo } else { 0x57 + lo });
        } else {
            out.push(b);
        }
        proof {
            let pre = all.subrange(0, i as int);
            let cur = all.subrange(0, i + 1 as int);
            assert(cur =~= pre + seq![all[i as int]]);
            lemma_json_escape_concat(pre, seq![all[i as int]]);
            assert(seq![all[i as int]].drop_first() =~= Seq::<u8>::empty());
            assert(json_escape(Seq::<u8>::empty()) =~= Seq::<u8>::empty());
            assert(json_escape(seq![all[i as int]]) =~= json_escape_byte(all[i as int]));
            assert(out@ =~= old(out)@ + seq![0x22u8] + json_escape(cur));
        }
        i += 1;
    }
    proof {
        assert(all.subrange(0, all.len() as int) =~= all);
    }
    out.push(0x22);
    proof {
        assert(out@ =~= old(out)@ + json_string(s@));
    }
}

/// The `GET /api/peers` body for a peer list document.
pub fn peer_list_json(peers: &Vec<WebPeerInfo>) -> (out: Vec<u8>)
    ensures
        out@ == spec_peer_list_json(peers@.map_values(|w: WebPeerInfo| w@)),
{
    let ghost entries = peers@.map_values(|w: WebPeerInfo| w@).map_values(
        |p: Seq<char>| spec_peer_entry_json(p),
    );
    let mut out: Vec<u8> = Vec::new();
    out.push(0x5b);
    let mut i: usize = 0;
    while i < peers.len()
        invariant
            i <= peers.len(),
            entries == peers@.map_values(|w: WebPeerInfo| w@).map_values(
                |p: Seq<char>| spec_peer_entry_json(p),
            ),
            entries.len() == peers@.len(),
            out@ == seq![0x5bu8] + spec_json_items(entries.subrange(0, i as int)) + if 0 < i
                < peers@.len() {
                seq![0x2cu8]
            } else {
                Seq::<u8>::empty()
            },
        decreases peers.len() - i,
    {
        out.push(0x7b);
        out.push(0x22);
        out.push(0x61);
        out.push(0x64);
        out.push(0x64);
        out.push(0x72);
        out.push(0x22);
        out.push(0x3a);
        push_json_string(&mut out, &peers[i].addr);
        out.push(0x7d);
        if i + 1 < peers.len() {
            out.push(0x2c);
        }
        proof {
            lemma_json_items_take(entries, i as int);
            assert(out@ =~= seq![0x5bu8] + spec_json_items(entries.subrange(0, i + 1 as int))
                + if 0 < i + 1 < peers@.len() {
                seq![0x2cu8]
            } else {
                Seq::<u8>::empty()
            });
        }
        i += 1;
    }
    out.push(0x5d);
    proof {
        assert(entries.subrange(0, entries.len() as int) =~= entries);
        assert(out@ =~= spec_peer_list_json(peers@.map_values(|w: WebPeerInfo| w@)));
    }
    out
}

/// Extending the taken prefix of an item list by one item appends that item,
/// after a comma where an item already stands.
proof fn lemma_json_items_take(items: Seq<Seq<u8>>, i: int)
    requires
        0 <= i < items.len(),
    ensures
        i == 0 ==> spec_json_items(items.subrange(0, 1)) == items[0],
        i > 0 ==> spec_json_items(items.subrange(0, i + 1)) == spec_json_items(
            items.subrange(0, i),
        ) + seq![0x2cu8] + items[i],
    decreases i,
{
    if i == 0 {
        assert(items.subrange(0, 1).len() == 1);
        assert(items.subrange(0, 1)[0] == items[0]);
    } else {
        let tail = items.skip(1);
        lemma_json_items_take(tail, i - 1);
        let a = items.subrange(0, i + 1);
        let b = items.subrange(0, i);
        assert(a.len() == i + 1);
        assert(a[0] == items[0]);
        assert(a.drop_first() =~= tail.subrange(0, i));
        if i == 1 {
            assert(tail.subrange(0, 1).len() == 1);
            assert(tail.subrange(0, 1)[0] == tail[0]);
            assert(tail[0] == items[1]);
            assert(b.len() == 1 && b[0] == items[0]);
        } else {
            assert(b.len() == i);
            assert(b[0] == items[0]);
            assert(b.drop_first() =~= tail.subrange(0, i - 1));
            assert(tail[i - 1] == items[i]);
        }
        assert(spec_json_items(a) =~= spec_json_items(b) + seq![0x2cu8] + items[i]);
    }
}

/// The `GET /api/relay` body for a relay document.
pub fn relay_info_json(info: &WebRelayInfo) -> (out: Vec<u8>)
    ensures
        out@ == spec_relay_info_json(info@),
{
    let ghost entries = info@.addrs.map_values(|a: Seq<char>| json_string(a));
    let mut out: Vec<u8> = Vec::new();
    out.push(0x7b);
    out.push(0x22);
    out.push(0x70);
    out.push(0x65);
    out.push(0x65);
    out.push(0x72);
    out.push(0x5f);
    out.push(0x69);
    out.push(0x64);
    out.push(0x22);
    out.push(0x3a);
    push_json_string(&mut out, &info.peer_id);
    out.push(0x2c);
    out.push(0x22);
    out.push(0x69);
    out.push(0x70);
    out.push(0x73);
    out.push(0x22);
    out.push(0x3a);
    out.push(0x5b);
    let ghost head = out@;
    let mut i: usize = 0;
    while i < info.ips.len()
        invariant
            i <= info.ips.len(),
            entries == info@.addrs.map_values(|a: Seq<char>| json_string(a)),
            entries.len() == info.ips@.len(),
            info@.addrs == info.ips@.map_values(|a: String| a@),
            out@ == head + spec_json_items(entries.subrange(0, i as int)) + if 0 < i
                < info.ips@.len() {
                seq![0x2cu8]
            } else {
                Seq::<u8>::empty()
            },
        decreases info.ips.len() - i,
    {
        push_json_string(&mut out, &info.ips[i]);
        if i + 1 < info.ips.len() {
            out.push(0x2c);
        }
        proof {
            lemma_json_items_take(entries, i as int);
            assert(out@ =~= head + spec_json_items(entries.subrange(0, i + 1 as int)) + if 0 < i + 1
                < info.ips@.len() {
                seq![0x2cu8]
            } else {
                Seq::<u8>::empty()
            });
        }
        i += 1;
    }
    out.push(0x5d);
    out.push(0x7d);
    proof {
        assert(entries.subrange(0, entries.len() as int) =~= entries);
        assert(out@ =~= spec_relay_info_json(info@));
    }
    out
}

} // verus!
