//! Framing of wire messages: a kind tag, the sender's share index, the
//! addressee's share index, and the round payload. The engine treats the
//! payload as opaque bytes.

use vstd::prelude::*;

verus! {

use crate::TofnFatal;
use crate::TofnResult;

/// Broadcast to every share, or addressed to exactly one.
#[derive(Clone, Copy, PartialEq, Eq, Structural, Debug)]
pub enum MsgKind {
    Bcast,
    P2p,
}

/// A decoded wire message: kind, sender share index, addressee share index
/// (zero for broadcasts), and the payload.
pub struct WireMsg {
    pub kind: MsgKind,
    pub from: usize,
    pub to: usize,
    pub payload: Vec<u8>,
}

/// The five header bytes of a wire message.
pub open spec fn header_spec(kind: MsgKind, from: usize, to: usize) -> Seq<u8> {
    seq![
        if kind is Bcast { 0u8 } else { 1u8 },
        (from / 256) as u8,
        (from % 256) as u8,
        (to / 256) as u8,
        (to % 256) as u8,
    ]
}

/// The encoding of a wire message.
pub open spec fn encode_spec(kind: MsgKind, from: usize, to: usize, payload: Seq<u8>) -> Seq<u8> {
    header_spec(kind, from, to) + payload
}

/// What a byte string's header decodes to, if anything: kind, sender and
/// addressee, the inverse of [`encode_spec`] on indices below `65536`.
pub open spec fn decode_spec(bytes: Seq<u8>) -> Option<(MsgKind, usize, usize)> {
    if bytes.len() < 5 || bytes[0] > 1 {
        None
    } else {
        Some(
            (
                if bytes[0] == 0 { MsgKind::Bcast } else { MsgKind::P2p },
                (bytes[1] * 256 + bytes[2]) as usize,
                (bytes[3] * 256 + bytes[4]) as usize,
            ),
        )
    }
}

/// The payload of a decodable byte string: everything after the header.
pub open spec fn decode_payload_spec(bytes: Seq<u8>) -> Seq<u8> {
    bytes.skip(5)
}

pub fn encode(kind: MsgKind, from: usize, to: usize, payload: &Vec<u8>) -> (r: TofnResult<Vec<u8>>)
    ensures
        match r {
            Ok(v) => from < 65536 && to < 65536 && v@ == encode_spec(kind, from, to, payload@),
            Err(e) => (from >= 65536 || to >= 65536) && e == TofnFatal,
        },
{
    if from >= 65536 || to >= 65536 {
        return Err(TofnFatal);
    }
    let mut out: Vec<u8> = Vec::new();
    out.push(match kind {
        MsgKind::Bcast => 0u8,
        MsgKind::P2p => 1u8,
    });
    out.push((from / 256) as u8);
    out.push((from % 256) as u8);
    out.push((to / 256) as u8);
    out.push((to % 256) as u8);
    let mut i: usize = 0;
    while i < payload.len()
        invariant
            i <= payload@.len(),
            out@ == header_spec(kind, from, to) + payload@.take(i as int),
        decreases payload@.len() - i,
    {
        proof {
            assert((header_spec(kind, from, to) + payload@.take(i as int)).push(payload@[i as int])
                =~= header_spec(kind, from, to) + payload@.take(i as int + 1));
        }
        out.push(payload[i]);
        i += 1;
    }
    proof {
        assert(payload@.take(payload@.len() as int) =~= payload@);
        assert(out@ =~= encode_spec(kind, from, to, payload@));
    }
    Ok(out)
}

pub fn decode(bytes: &Vec<u8>) -> (r: Option<WireMsg>)
    ensures
        r is Some <==> decode_spec(bytes@) is Some,
        r is Some ==> {
            let m = r.unwrap();
            let s = decode_spec(bytes@).unwrap();
            m.kind == s.0 && m.from == s.1 && m.to == s.2 && m.payload@
                == decode_payload_spec(bytes@)
        },
{
    if bytes.len() < 5 {
        return None;
    }
    let kind = if bytes[0] == 0 {
        MsgKind::Bcast
    } else if bytes[0] == 1 {
        MsgKind::P2p
    } else {
        return None;
    };
    let from: usize = (bytes[1] as usize) * 256 + (bytes[2] as usize);
    let to: usize = (bytes[3] as usize) * 256 + (bytes[4] as usize);
    let mut payload: Vec<u8> = Vec::new();
    let mut i: usize = 5;
    while i < bytes.len()
        invariant
            5 <= i <= bytes@.len(),
            payload@ == bytes@.subrange(5, i as int),
        decreases bytes@.len() - i,
    {
        proof {
            assert(bytes@.subrange(5, i as int).push(bytes@[i as int]) =~= bytes@.subrange(
                5,
                i as int + 1,
            ));
        }
        payload.push(bytes[i]);
        i += 1;
    }
    proof {
        assert(bytes@.subrange(5, bytes@.len() as int) =~= decode_payload_spec(bytes@));
    }
    Some(WireMsg { kind, from, to, payload })
}

/// Encoding then decoding a message hands back exactly the message: the
/// framing loses nothing.
pub proof fn lemma_wire_round_trip(kind: MsgKind, from: usize, to: usize, payload: Seq<u8>)
    requires
        from < 65536,
        to < 65536,
    ensures
        decode_spec(encode_spec(kind, from, to, payload)) is Some,
        decode_spec(encode_spec(kind, from, to, payload)).unwrap().0 == kind,
        decode_spec(encode_spec(kind, from, to, payload)).unwrap().1 == from,
        decode_spec(encode_spec(kind, from, to, payload)).unwrap().2 == to,
        decode_payload_spec(encode_spec(kind, from, to, payload)) == payload,
{
    let e = encode_spec(kind, from, to, payload);
    assert(e[0] == if kind is Bcast { 0u8 } else { 1u8 });
    assert(e[1] == (from / 256) as u8 && e[2] == (from % 256) as u8);
    assert(e[3] == (to / 256) as u8 && e[4] == (to % 256) as u8);
    assert(from == (from / 256) * 256 + (from % 256)) by {
        vstd::arithmetic::div_mod::lemma_fundamental_div_mod(from as int, 256);
    };
    assert(to == (to / 256) * 256 + (to % 256)) by {
        vstd::arithmetic::div_mod::lemma_fundamental_div_mod(to as int, 256);
    };
    assert(e.skip(5) =~= payload);
}

} // verus!
