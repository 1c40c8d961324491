//! The wire envelope carried over gossip messages.
//!
//! Application traffic travels as a [`NetworkEvent`]: either the announcement
//! of a newly reachable peer, or a payload tagged with the peer it came from.
//! On the wire the envelope is a small MessagePack document: an array of a
//! variant tag, the origin's identifier as a `str 32` string, and, for
//! payload events, the payload as a `bin 32` byte string. The decoder accepts
//! exactly what the encoder emits; anything else is rejected, and the caller
//! drops it.

use vstd::prelude::*;
use vstd::utf8::*;

verus! {

/// The envelope for application traffic: a new reachable peer, or a payload
/// from a peer. Peers are named by the printable form of their identifier.
#[derive(Clone, Debug, PartialEq)]
pub enum NetworkEvent<M> {
    NewConnection(String),
    Event(String, M),
}

/// Mathematical model of an envelope, over the payload's own model.
pub enum NetworkEventModel<P> {
    NewConnection(Seq<char>),
    Event(Seq<char>, P),
}

impl<M: View> View for NetworkEvent<M> {
    type V = NetworkEventModel<M::V>;

    open spec fn view(&self) -> NetworkEventModel<M::V> {
        match self {
            NetworkEvent::NewConnection(p) => NetworkEventModel::NewConnection(p@),
            NetworkEvent::Event(p, m) => NetworkEventModel::Event(p@, m@),
        }
    }
}

/// A 32-bit big-endian length.
pub open spec fn be32u(w: u32) -> Seq<u8> {
    seq![
        (w / 0x1000000) as u8,
        ((w % 0x1000000) / 0x10000) as u8,
        ((w % 0x10000) / 0x100) as u8,
        (w % 0x100) as u8,
    ]
}

/// The value of four big-endian bytes.
pub open spec fn be32_val(b: Seq<u8>) -> nat
    recommends
        b.len() == 4,
{
    (b[0] as nat) * 0x1000000 + (b[1] as nat) * 0x10000 + (b[2] as nat) * 0x100 + (b[3] as nat)
}

/// Reading back four big-endian bytes gives the length they were written
/// from.
pub proof fn lemma_be32_round_trip(w: u32)
    ensures
        be32u(w).len() == 4,
        be32_val(be32u(w)) == w,
{
    assert(w / 0x1000000 < 0x100);
    assert((w % 0x1000000) / 0x10000 < 0x100);
    assert((w % 0x10000) / 0x100 < 0x100);
    assert(w == (w / 0x1000000) * 0x1000000 + (w % 0x1000000));
    assert(w % 0x1000000 == ((w % 0x1000000) / 0x10000) * 0x10000 + (w % 0x1000000) % 0x10000);
    assert((w % 0x1000000) % 0x10000 == w % 0x10000);
    assert(w % 0x10000 == ((w % 0x10000) / 0x100) * 0x100 + (w % 0x10000) % 0x100);
    assert((w % 0x10000) % 0x100 == w % 0x100);
}

/// A MessagePack `str 32` string: tag, length, UTF-8 bytes.
pub open spec fn spec_encode_str(s: Seq<char>) -> Seq<u8> {
    seq![0xdbu8] + be32u(encode_utf8(s).len() as u32) + encode_utf8(s)
}

/// A MessagePack `bin 32` byte string: tag, length, bytes.
pub open spec fn spec_encode_bin(b: Seq<u8>) -> Seq<u8> {
    seq![0xc6u8] + be32u(b.len() as u32) + b
}

/// Whether an envelope fits the wire format's length fields: the identifier's
/// UTF-8 form and the payload each below 2^32 bytes.
pub open spec fn encodable(ev: NetworkEventModel<Seq<u8>>) -> bool {
    match ev {
        NetworkEventModel::NewConnection(p) => encode_utf8(p).len() < 0x1_0000_0000,
        NetworkEventModel::Event(p, m) => encode_utf8(p).len() < 0x1_0000_0000 && m.len()
            < 0x1_0000_0000,
    }
}

/// The wire form of an envelope: a two-element array `[0, origin]` for a new
/// connection, a three-element array `[1, origin, payload]` for a payload.
#[verifier::opaque]
pub open spec fn spec_encode_event(ev: NetworkEventModel<Seq<u8>>) -> Seq<u8> {
    match ev {
        NetworkEventModel::NewConnection(p) => seq![0x92u8, 0x00u8] + spec_encode_str(p),
        NetworkEventModel::Event(p, m) => seq![0x93u8, 0x01u8] + spec_encode_str(p)
            + spec_encode_bin(m),
    }
}

/// Reads one `str 32` string off the front of `d`: the string and what
/// follows it, or nothing if `d` does not start with a well-formed string.
pub open spec fn spec_take_str(d: Seq<u8>) -> Option<(Seq<char>, Seq<u8>)> {
    if d.len() < 5 || d[0] != 0xdb {
        None
    } else {
        let n = be32_val(d.subrange(1, 5));
        if d.len() < 5 + n {
            None
        } else {
            let body = d.subrange(5, 5 + n as int);
            if valid_utf8(body) {
                Some((decode_utf8(body), d.skip(5 + n as int)))
            } else {
                None
            }
        }
    }
}

/// Reads one `bin 32` byte string off the front of `d`.
pub open spec fn spec_take_bin(d: Seq<u8>) -> Option<(Seq<u8>, Seq<u8>)> {
    if d.len() < 5 || d[0] != 0xc6 {
        None
    } else {
        let n = be32_val(d.subrange(1, 5));
        if d.len() < 5 + n {
            None
        } else {
            Some((d.subrange(5, 5 + n as int), d.skip(5 + n as int)))
        }
    }
}

/// The envelope a byte string holds, if it holds exactly one.
#[verifier::opaque]
pub open spec fn spec_decode_event(d: Seq<u8>) -> Option<NetworkEventModel<Seq<u8>>> {
    if d.len() < 2 {
        None
    } else if d[0] == 0x92 && d[1] == 0x00 {
        match spec_take_str(d.skip(2)) {
            Some((p, rest)) => if rest.len() == 0 {
                Some(NetworkEventModel::NewConnection(p))
            } else {
                None
            },
            None => None,
        }
    } else if d[0] == 0x93 && d[1] == 0x01 {
        match spec_take_str(d.skip(2)) {
            Some((p, rest)) => match spec_take_bin(rest) {
                Some((m, rest2)) => if rest2.len() == 0 {
                    Some(NetworkEventModel::Event(p, m))
                } else {
                    None
                },
                None => None,
            },
            None => None,
        }
    } else {
        None
    }
}

/// Reading a string off its own encoding gives the string back, with the
/// trailing bytes untouched.
proof fn lemma_take_str_round_trip(s: Seq<char>, rest: Seq<u8>)
    requires
        encode_utf8(s).len() < 0x1_0000_0000,
    ensures
        spec_take_str(spec_encode_str(s) + rest) == Some((s, rest)),
{
    let b = encode_utf8(s);
    let n = b.len();
    let d = spec_encode_str(s) + rest;
    lemma_be32_round_trip(n as u32);
    assert(d.len() == 5 + n + rest.len());
    assert(d[0] == 0xdb);
    assert(d.subrange(1, 5) =~= be32u(n as u32));
    assert(be32_val(d.subrange(1, 5)) == n);
    assert(d.subrange(5, 5 + n as int) =~= b);
    encode_utf8_valid_utf8(s);
    encode_utf8_decode_utf8(s);
    assert(d.skip(5 + n as int) =~= rest);
}

/// Reading a byte string off its own encoding gives the bytes back.
proof fn lemma_take_bin_round_trip(m: Seq<u8>, rest: Seq<u8>)
    requires
        m.len() < 0x1_0000_0000,
    ensures
        spec_take_bin(spec_encode_bin(m) + rest) == Some((m, rest)),
{
    let n = m.len();
    let d = spec_encode_bin(m) + rest;
    lemma_be32_round_trip(n as u32);
    assert(d.len() == 5 + n + rest.len());
    assert(d[0] == 0xc6);
    assert(d.subrange(1, 5) =~= be32u(n as u32));
    assert(be32_val(d.subrange(1, 5)) == n);
    assert(d.subrange(5, 5 + n as int) =~= m);
    assert(d.skip(5 + n as int) =~= rest);
}

/// Round trip: decoding what the encoder emitted yields the original
/// envelope, for every envelope whose identifier and payload fit the wire
/// format's length fields.
pub proof fn lemma_encode_decode_round_trip(ev: NetworkEventModel<Seq<u8>>)
    requires
        encodable(ev),
    ensures
        spec_decode_event(spec_encode_event(ev)) == Some(ev),
{
    reveal(spec_encode_event);
    reveal(spec_decode_event);
    match ev {
        NetworkEventModel::NewConnection(p) => {
            let d = spec_encode_event(ev);
            assert(d.len() >= 2 && d[0] == 0x92 && d[1] == 0x00);
            assert(d.skip(2) =~= spec_encode_str(p) + Seq::<u8>::empty());
            lemma_take_str_round_trip(p, Seq::<u8>::empty());
        },
        NetworkEventModel::Event(p, m) => {
            let d = spec_encode_event(ev);
            assert(d.len() >= 2 && d[0] == 0x93 && d[1] == 0x01);
            assert(d.skip(2) =~= spec_encode_str(p) + spec_encode_bin(m));
            lemma_take_str_round_trip(p, spec_encode_bin(m));
            assert(spec_encode_bin(m) =~= spec_encode_bin(m) + Seq::<u8>::empty());
            lemma_take_bin_round_trip(m, Seq::<u8>::empty());
        },
    }
}

/// Appends a 32-bit big-endian length.
fn push_be32(out: &mut Vec<u8>, w: u32)
    ensures
        final(out)@ == old(out)@ + be32u(w),
{
    out.push((w / 0x1000000) as u8);
    out.push(((w % 0x1000000) / 0x10000) as u8);
    out.push(((w % 0x10000) / 0x100) as u8);
    out.push((w % 0x100) as u8);
    proof {
        assert(out@ =~= old(out)@ + be32u(w));
    }
}

/// Appends a `str 32` string.
fn push_str(out: &mut Vec<u8>, s: &String)
    requires
        encode_utf8(s@).len() < 0x1_0000_0000,
    ensures
        final(out)@ == old(out)@ + spec_encode_str(s@),
{
    let mut bytes: Vec<u8> = vstd::slice::slice_to_vec(s.as_str().as_bytes());
    let n: usize = bytes.len();
    out.push(0xdb);
    push_be32(out, n as u32);
    out.append(&mut bytes);
    proof {
        assert(out@ =~= old(out)@ + spec_encode_str(s@));
    }
}

/// Appends a `bin 32` byte string.
fn push_bin(out: &mut Vec<u8>, b: &Vec<u8>)
    requires
        b@.len() < 0x1_0000_0000,
    ensures
        final(out)@ == old(out)@ + spec_encode_bin(b@),
{
    let mut bytes: Vec<u8> = vstd::slice::slice_to_vec(b.as_slice());
    let n: usize = bytes.len();
    out.push(0xc6);
    push_be32(out, n as u32);
    out.append(&mut bytes);
    proof {
        assert(out@ =~= old(out)@ + spec_encode_bin(b@));
    }
}

/// Serializes an envelope for the wire.
pub fn encode_event(ev: &NetworkEvent<Vec<u8>>) -> (out: Vec<u8>)
    requires
        encodable(ev@),
    ensures
        out@ == spec_encode_event(ev@),
{
    proof {
        reveal(spec_encode_event);
    }
    let mut out: Vec<u8> = Vec::new();
    match ev {
        NetworkEvent::NewConnection(p) => {
            out.push(0x92);
            out.push(0x00);
            push_str(&mut out, p);
            proof {
                assert(out@ =~= spec_encode_event(ev@));
            }
        },
        NetworkEvent::Event(p, m) => {
            out.push(0x93);
            out.push(0x01);
            push_str(&mut out, p);
            push_bin(&mut out, m);
            proof {
                assert(out@ =~= spec_encode_event(ev@));
            }
        },
    }
    out
}

/// Relies on `String::from_utf8`: it returns the decoded string exactly when
/// the bytes are valid UTF-8, and rejects anything else.
#[verifier::external_body]
fn string_from_utf8(bytes: Vec<u8>) -> (r: Option<String>)
    ensures
        r matches Some(s) ==> valid_utf8(bytes@) && s@ == decode_utf8(bytes@),
        valid_utf8(bytes@) ==> r is Some,
{
    String::from_utf8(bytes).ok()
}

/// Reads four big-endian bytes at `off`.
fn read_be32(d: &Vec<u8>, off: usize) -> (r: u32)
    requires
        off + 4 <= d@.len(),
    ensures
        r == be32_val(d@.subrange(off as int, off as int + 4)),
{
    // binds the length so the index arithmetic below is known to fit
    let total = d.len();
    let b0 = d[off];
    let b1 = d[off + 1];
    let b2 = d[off + 2];
    let b3 = d[off + 3];
    (b0 as u32) * 0x1000000 + (b1 as u32) * 0x10000 + (b2 as u32) * 0x100 + (b3 as u32)
}

/// Copies `d[from..to]` out as a fresh vector.
fn copy_range(d: &Vec<u8>, from: usize, to: usize) -> (r: Vec<u8>)
    requires
        from <= to <= d@.len(),
    ensures
        r@ == d@.subrange(from as int, to as int),
{
    vstd::slice::slice_to_vec(vstd::slice::slice_subrange(d.as_slice(), from, to))
}

/// Reads one `str 32` string at `off`, returning it with the offset of what
/// follows.
fn take_str(d: &Vec<u8>, off: usize) -> (r: Option<(String, usize)>)
    requires
        off <= d@.len(),
    ensures
        r matches Some(p) ==> off <= p.1 <= d@.len() && spec_take_str(d@.skip(off as int))
            == Some((p.0@, d@.skip(p.1 as int))),
        r is None ==> spec_take_str(d@.skip(off as int)) is None,
{
    let ghost tail = d@.skip(off as int);
    if d.len() - off < 5 {
        return None;
    }
    if d[off] != 0xdb {
        proof {
            assert(tail[0] == d@[off as int]);
        }
        return None;
    }
    let n32 = read_be32(d, off + 1);
    proof {
        assert(d@.subrange(off as int + 1, off as int + 5) =~= tail.subrange(1, 5));
    }
    let n = n32 as usize;
    let rem = d.len() - off - 5;
    if rem < n {
        return None;
    }
    let body = copy_range(d, off + 5, off + 5 + n);
    proof {
        assert(body@ =~= tail.subrange(5, 5 + n as int));
    }
    match string_from_utf8(body) {
        Some(s) => {
            proof {
                assert(d@.skip(off as int + 5 + n as int) =~= tail.skip(5 + n as int));
            }
            Some((s, off + 5 + n))
        },
        None => None,
    }
}

/// Reads one `bin 32` byte string at `off`.
fn take_bin(d: &Vec<u8>, off: usize) -> (r: Option<(Vec<u8>, usize)>)
    requires
        off <= d@.len(),
    ensures
        r matches Some(p) ==> off <= p.1 <= d@.len() && spec_take_bin(d@.skip(off as int))
            == Some((p.0@, d@.skip(p.1 as int))),
        r is None ==> spec_take_bin(d@.skip(off as int)) is None,
{
    let ghost tail = d@.skip(off as int);
    if d.len() - off < 5 {
        return None;
    }
    if d[off] != 0xc6 {
        proof {
            assert(tail[0] == d@[off as int]);
        }
        return None;
    }
    let n32 = read_be32(d, off + 1);
    proof {
        assert(d@.subrange(off as int + 1, off as int + 5) =~= tail.subrange(1, 5));
    }
    let n = n32 as usize;
    let rem = d.len() - off - 5;
    if rem < n {
        return None;
    }
    let body = copy_range(d, off + 5, off + 5 + n);
    proof {
        assert(body@ =~= tail.subrange(5, 5 + n as int));
        assert(d@.skip(off as int + 5 + n as int) =~= tail.skip(5 + n as int));
    }
    Some((body, off + 5 + n))
}

/// Parses an envelope from the wire. Anything that is not exactly the wire
/// form of one envelope is rejected.
pub fn decode_event(d: &Vec<u8>) -> (r: Option<NetworkEvent<Vec<u8>>>)
    ensures
        r matches Some(ev) ==> spec_decode_event(d@) == Some(ev@),
        r is None ==> spec_decode_event(d@) is None,
{
    proof {
        reveal(spec_decode_event);
    }
    if d.len() < 2 {
        return None;
    }
    let t0 = d[0];
    let t1 = d[1];
    if t0 == 0x92 && t1 == 0x00 {
        match take_str(d, 2) {
            Some((p, next)) => {
                if next == d.len() {
                    Some(NetworkEvent::NewConnection(p))
                } else {
                    proof {
                        assert(d@.skip(next as int).len() != 0);
                    }
                    None
                }
            },
            None => None,
        }
    } else if t0 == 0x93 && t1 == 0x01 {
        match take_str(d, 2) {
            Some((p, next)) => {
                match take_bin(d, next) {
                    Some((m, next2)) => {
                        if next2 == d.len() {
                            Some(NetworkEvent::Event(p, m))
                        } else {
                            proof {
                                assert(d@.skip(next2 as int).len() != 0);
                            }
                            None
                        }
                    },
                    None => None,
                }
            },
            None => None,
        }
    } else {
        None
    }
}

} // verus!
