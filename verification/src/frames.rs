//! Datagram framing for UDP-over-CONNECT sessions.
//!
//! Inline frames ride on the byte stream as a 16-bit big-endian length
//! followed by the payload. Out-of-band frames (QUIC datagrams) carry a
//! 32-bit big-endian session id followed by the payload; a demultiplexer
//! routes each datagram to the session with that id and drops unknown ids.

use vstd::prelude::*;

use crate::text::{append_bytes, subvec};

verus! {

/// Wire form of one inline frame: `[u16 length, big endian][payload]`.
pub open spec fn inline_frame_text(payload: Seq<u8>) -> Seq<u8> {
    seq![((payload.len() as int / 256) as u8), ((payload.len() as int % 256) as u8)] + payload
}

/// Encode one inline frame.
pub fn encode_inline_frame(payload: &[u8]) -> (r: Vec<u8>)
    requires
        payload@.len() <= 0xFFFF,
    ensures
        r@ == inline_frame_text(payload@),
{
    let n = payload.len() as u16;
    let mut r: Vec<u8> = Vec::new();
    r.push((n / 256) as u8);
    r.push((n % 256) as u8);
    append_bytes(&mut r, payload);
    proof {
        assert(r@ =~= inline_frame_text(payload@));
    }
    r
}

/// Decode one inline frame from the front of `v`: the payload and the index
/// where the rest of the stream starts. `None` when `v` does not yet hold a
/// whole frame.
pub fn decode_inline_frame(v: &[u8]) -> (r: Option<(Vec<u8>, usize)>)
    ensures
        match r {
            Some((payload, rest)) => {
                &&& v@.len() >= 2
                &&& payload@.len() == v@[0] * 256 + v@[1]
                &&& rest == 2 + payload@.len()
                &&& rest <= v@.len()
                &&& payload@ == v@.subrange(2, rest as int)
            },
            None => v@.len() < 2 + (if v@.len() >= 2 {
                v@[0] * 256 + v@[1]
            } else {
                0
            }),
        },
{
    if v.len() < 2 {
        return None;
    }
    let n: usize = (v[0] as usize) * 256 + (v[1] as usize);
    if v.len() < 2 + n {
        return None;
    }
    let payload = subvec(v, 2, 2 + n);
    Some((payload, 2 + n))
}

/// Decoding an encoded inline frame gives the payload back and consumes
/// exactly the frame, whatever follows it on the stream.
pub proof fn lemma_inline_frame_round_trip(payload: Seq<u8>, rest: Seq<u8>)
    requires
        payload.len() <= 0xFFFF,
    ensures
        ({
            let s = inline_frame_text(payload) + rest;
            &&& s.len() >= 2
            &&& s[0] * 256 + s[1] == payload.len()
            &&& s.subrange(2, 2 + payload.len() as int) == payload
        }),
{
    let s = inline_frame_text(payload) + rest;
    assert(s[0] == (payload.len() as int / 256) as u8);
    assert(s[1] == (payload.len() as int % 256) as u8);
    assert(s[0] * 256 + s[1] == payload.len());
    assert(s.subrange(2, 2 + payload.len() as int) =~= payload);
}

/// Wire form of one out-of-band datagram: `[u32 session id, big endian][payload]`.
pub open spec fn datagram_text(session_id: u32, payload: Seq<u8>) -> Seq<u8> {
    seq![
        ((session_id as int / 0x1000000) as u8),
        ((session_id as int / 0x10000 % 256) as u8),
        ((session_id as int / 256 % 256) as u8),
        ((session_id as int % 256) as u8),
    ] + payload
}

/// Encode one out-of-band datagram.
pub fn encode_datagram(session_id: u32, payload: &[u8]) -> (r: Vec<u8>)
    ensures
        r@ == datagram_text(session_id, payload@),
{
    let mut r: Vec<u8> = Vec::new();
    r.push((session_id / 0x1000000) as u8);
    r.push((session_id / 0x10000 % 256) as u8);
    r.push((session_id / 256 % 256) as u8);
    r.push((session_id % 256) as u8);
    append_bytes(&mut r, payload);
    proof {
        assert(r@ =~= datagram_text(session_id, payload@));
    }
    r
}

/// Decode one out-of-band datagram: its session id and payload.
pub fn decode_datagram(v: &[u8]) -> (r: Option<(u32, Vec<u8>)>)
    ensures
        match r {
            Some((id, payload)) => {
                &&& v@.len() >= 4
                &&& id == v@[0] * 0x1000000 + v@[1] * 0x10000 + v@[2] * 256 + v@[3]
                &&& payload@ == v@.subrange(4, v@.len() as int)
            },
            None => v@.len() < 4,
        },
{
    if v.len() < 4 {
        return None;
    }
    let id: u32 = (v[0] as u32) * 0x1000000 + (v[1] as u32) * 0x10000 + (v[2] as u32) * 256 + (
    v[3] as u32);
    let payload = subvec(v, 4, v.len());
    Some((id, payload))
}

/// Decoding an encoded datagram gives the session id and payload back.
pub proof fn lemma_datagram_round_trip(session_id: u32, payload: Seq<u8>)
    ensures
        ({
            let s = datagram_text(session_id, payload);
            &&& s.len() >= 4
            &&& s[0] * 0x1000000 + s[1] * 0x10000 + s[2] * 256 + s[3] == session_id
            &&& s.subrange(4, s.len() as int) == payload
        }),
{
    let s = datagram_text(session_id, payload);
    assert(s[0] * 0x1000000 + s[1] * 0x10000 + s[2] * 256 + s[3] == session_id) by {
        assert(s[0] == (session_id as int / 0x1000000) as u8);
        assert(s[1] == (session_id as int / 0x10000 % 256) as u8);
        assert(s[2] == (session_id as int / 256 % 256) as u8);
        assert(s[3] == (session_id as int % 256) as u8);
    }
    assert(s.subrange(4, s.len() as int) =~= payload);
}

/// Index of `id` in the session table, or `None` when no session has it.
///
/// The demultiplexer hands the payload to the matching session's queue and
/// drops datagrams whose id is unknown.
pub fn demux_route(sessions: &Vec<u32>, id: u32) -> (r: Option<usize>)
    ensures
        match r {
            Some(i) => i < sessions@.len() && sessions@[i as int] == id && forall|j: int|
                0 <= j < i ==> sessions@[j] != id,
            None => forall|j: int| 0 <= j < sessions@.len() ==> sessions@[j] != id,
        },
{
    let mut i: usize = 0;
    while i < sessions.len()
        invariant
            i <= sessions@.len(),
            forall|j: int| 0 <= j < i ==> sessions@[j] != id,
        decreases sessions@.len() - i,
    {
        if sessions[i] == id {
            return Some(i);
        }
        i += 1;
    }
    None
}

} // verus!
