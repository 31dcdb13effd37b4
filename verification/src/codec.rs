//! Deterministic, self-describing wire encoding of packets.
//!
//! Layout per datagram: the packet's own 32-bit id (big endian), then a one
//! byte discriminator, then the variant's fields: a 32-bit length prefix and
//! the UTF-8 bytes of the phrase for a text message, or the acknowledged
//! 32-bit id for an acknowledgment. Decoding rejects truncated input,
//! trailing bytes, unknown discriminators and text that is not valid UTF-8.

use vstd::prelude::*;
use vstd::utf8::{decode_utf8, encode_utf8, encode_utf8_decode_utf8, encode_utf8_valid_utf8,
    valid_utf8};
use vstd::string::StrSliceExecFns;
use crate::packets::{Packet, PacketData, PacketDataV, PacketV, TalkData};

verus! {

/// Wire discriminator of the text-message variant.
pub const TAG_TALK: u8 = 0;

/// Wire discriminator of the acknowledgment variant.
pub const TAG_ACK: u8 = 1;

/// The payload could not be represented on the wire (its text is longer than
/// the 32-bit length prefix can state).
#[derive(Clone, Copy, Debug, PartialEq, Eq, Structural)]
pub struct EncodingError;

/// The bytes are truncated, malformed, carry an unrecognized discriminator,
/// or hold text that is not valid UTF-8.
#[derive(Clone, Copy, Debug, PartialEq, Eq, Structural)]
pub struct DecodingError;

/// The four big-endian bytes of a 32-bit integer.
pub open spec fn u32_bytes(x: u32) -> Seq<u8> {
    seq![
        ((x >> 24) & 0xff) as u8,
        ((x >> 16) & 0xff) as u8,
        ((x >> 8) & 0xff) as u8,
        (x & 0xff) as u8,
    ]
}

/// The 32-bit integer read from four big-endian bytes.
pub open spec fn u32_of_bytes(b0: u8, b1: u8, b2: u8, b3: u8) -> u32 {
    (((b0 as u32) << 24) | ((b1 as u32) << 16) | ((b2 as u32) << 8) | (b3 as u32)) as u32
}

proof fn lemma_u32_bytes_roundtrip(x: u32)
    ensures
        u32_of_bytes(u32_bytes(x)[0], u32_bytes(x)[1], u32_bytes(x)[2], u32_bytes(x)[3]) == x,
{
    assert(((((((x >> 24) & 0xff) as u8) as u32) << 24) | (((((x >> 16) & 0xff) as u8) as u32)
        << 16) | (((((x >> 8) & 0xff) as u8) as u32) << 8) | (((x & 0xff) as u8) as u32)) as u32
        == x) by (bit_vector);
}

/// Whether a packet can be represented on the wire.
pub open spec fn encodable(p: PacketV) -> bool {
    match p.data {
        PacketDataV::Talk(chars) => encode_utf8(chars).len() <= u32::MAX,
        PacketDataV::Ack(_) => true,
    }
}

/// What encoding a packet yields.
pub open spec fn spec_encode(p: PacketV) -> Seq<u8> {
    u32_bytes(p.id) + match p.data {
        PacketDataV::Talk(chars) => {
            let tb = encode_utf8(chars);
            seq![TAG_TALK] + u32_bytes(tb.len() as u32) + tb
        },
        PacketDataV::Ack(x) => seq![TAG_ACK] + u32_bytes(x),
    }
}

/// What decoding a byte sequence yields, if anything.
pub open spec fn spec_decode(b: Seq<u8>) -> Option<PacketV> {
    if b.len() < 5 {
        None
    } else {
        let id = u32_of_bytes(b[0], b[1], b[2], b[3]);
        if b[4] == TAG_TALK {
            if b.len() < 9 {
                None
            } else {
                let n = u32_of_bytes(b[5], b[6], b[7], b[8]) as int;
                if b.len() != 9 + n {
                    None
                } else {
                    let tb = b.subrange(9, 9 + n);
                    if valid_utf8(tb) {
                        Some(PacketV { id, data: PacketDataV::Talk(decode_utf8(tb)) })
                    } else {
                        None
                    }
                }
            }
        } else if b[4] == TAG_ACK {
            if b.len() != 9 {
                None
            } else {
                Some(PacketV { id, data: PacketDataV::Ack(u32_of_bytes(b[5], b[6], b[7], b[8])) })
            }
        } else {
            None
        }
    }
}

/// Law: encoding is symmetric — decoding what `spec_encode` yields gives the
/// original packet back, for every packet that can be represented.
pub proof fn lemma_encode_decode_roundtrip(p: PacketV)
    requires
        encodable(p),
    ensures
        spec_decode(spec_encode(p)) == Some(p),
{
    let e = spec_encode(p);
    lemma_u32_bytes_roundtrip(p.id);
    match p.data {
        PacketDataV::Talk(chars) => {
            let tb = encode_utf8(chars);
            let n = tb.len() as u32;
            lemma_u32_bytes_roundtrip(n);
            assert(e =~= u32_bytes(p.id) + seq![TAG_TALK] + u32_bytes(n) + tb);
            assert(e.len() == 9 + tb.len());
            assert(e[0] == u32_bytes(p.id)[0] && e[1] == u32_bytes(p.id)[1] && e[2] == u32_bytes(
                p.id)[2] && e[3] == u32_bytes(p.id)[3]);
            assert(e[4] == TAG_TALK);
            assert(e[5] == u32_bytes(n)[0] && e[6] == u32_bytes(n)[1] && e[7] == u32_bytes(n)[2]
                && e[8] == u32_bytes(n)[3]);
            assert(e.subrange(9, 9 + n as int) =~= tb);
            encode_utf8_valid_utf8(chars);
            encode_utf8_decode_utf8(chars);
        },
        PacketDataV::Ack(x) => {
            lemma_u32_bytes_roundtrip(x);
            assert(e =~= u32_bytes(p.id) + seq![TAG_ACK] + u32_bytes(x));
            assert(e.len() == 9);
            assert(e[0] == u32_bytes(p.id)[0] && e[1] == u32_bytes(p.id)[1] && e[2] == u32_bytes(
                p.id)[2] && e[3] == u32_bytes(p.id)[3]);
            assert(e[4] == TAG_ACK);
            assert(e[5] == u32_bytes(x)[0] && e[6] == u32_bytes(x)[1] && e[7] == u32_bytes(x)[2]
                && e[8] == u32_bytes(x)[3]);
        },
    }
}

fn push_u32(out: &mut Vec<u8>, x: u32)
    ensures
        final(out)@ == old(out)@ + u32_bytes(x),
{
    proof {
        assert((x >> 24) & 0xff < 256 && (x >> 16) & 0xff < 256 && (x >> 8) & 0xff < 256 && x
            & 0xff < 256) by (bit_vector);
    }
    out.push(((x >> 24) & 0xff) as u8);
    out.push(((x >> 16) & 0xff) as u8);
    out.push(((x >> 8) & 0xff) as u8);
    out.push((x & 0xff) as u8);
    proof {
        assert(out@ =~= old(out)@ + u32_bytes(x));
    }
}

fn read_u32(b: &Vec<u8>, i: usize) -> (r: u32)
    requires
        i + 4 <= b@.len(),
    ensures
        r == u32_of_bytes(b@[i as int], b@[i as int + 1], b@[i as int + 2], b@[i as int + 3]),
{
    let n = b.len();
    proof {
        assert(i + 4 <= n);
    }
    let b0 = b[i];
    let b1 = b[i + 1];
    let b2 = b[i + 2];
    let b3 = b[i + 3];
    ((b0 as u32) << 24) | ((b1 as u32) << 16) | ((b2 as u32) << 8) | (b3 as u32)
}

fn copy_range(b: &Vec<u8>, from: usize, to: usize) -> (r: Vec<u8>)
    requires
        from <= to <= b@.len(),
    ensures
        r@ == b@.subrange(from as int, to as int),
{
    let mut r: Vec<u8> = Vec::new();
    let mut j = from;
    while j < to
        invariant
            from <= j <= to <= b@.len(),
            r@ == b@.subrange(from as int, j as int),
        decreases to - j,
    {
        r.push(b[j]);
        proof {
            assert(r@ =~= b@.subrange(from as int, j as int + 1));
        }
        j = j + 1;
    }
    r
}

/// Relies on `String::from_utf8`: it succeeds exactly on valid UTF-8 input
/// and yields the characters that the bytes encode.
#[verifier::external_body]
fn bytes_to_string(v: Vec<u8>) -> (r: Option<String>)
    ensures
        r matches Some(s) ==> valid_utf8(v@) && s@ == decode_utf8(v@),
        valid_utf8(v@) ==> r is Some,
{
    String::from_utf8(v).ok()
}

/// Serializes a packet to its wire bytes; fails exactly when the payload
/// cannot be represented.
pub fn encode(p: &Packet) -> (r: Result<Vec<u8>, EncodingError>)
    ensures
        r matches Ok(b) ==> b@ == spec_encode(p@),
        r is Ok <==> encodable(p@),
{
    let mut out: Vec<u8> = Vec::new();
    push_u32(&mut out, p.id);
    match &p.packet_data {
        PacketData::Talk(t) => {
            let mut tb: Vec<u8> = t.phrase.as_str().as_bytes_vec();
            if tb.len() > u32::MAX as usize {
                return Err(EncodingError);
            }
            out.push(TAG_TALK);
            push_u32(&mut out, tb.len() as u32);
            out.append(&mut tb);
            proof {
                assert(out@ =~= spec_encode(p@));
            }
            Ok(out)
        },
        PacketData::Ack(x) => {
            out.push(TAG_ACK);
            push_u32(&mut out, *x);
            proof {
                assert(out@ =~= spec_encode(p@));
            }
            Ok(out)
        },
    }
}

/// Deserializes wire bytes back into a packet; fails exactly when
/// `spec_decode` rejects the bytes.
pub fn decode(b: &Vec<u8>) -> (r: Result<Packet, DecodingError>)
    ensures
        r matches Ok(p) ==> spec_decode(b@) == Some(p@),
        r is Ok <==> spec_decode(b@) is Some,
{
    if b.len() < 5 {
        return Err(DecodingError);
    }
    let id = read_u32(b, 0);
    let tag = b[4];
    if tag == TAG_TALK {
        if b.len() < 9 {
            return Err(DecodingError);
        }
        let n = read_u32(b, 5);
        if b.len() - 9 != n as usize {
            return Err(DecodingError);
        }
        let tb = copy_range(b, 9, b.len());
        proof {
            assert(tb@ =~= b@.subrange(9, 9 + n as int));
        }
        match bytes_to_string(tb) {
            Some(s) => Ok(Packet { id, packet_data: PacketData::Talk(TalkData { phrase: s }) }),
            None => Err(DecodingError),
        }
    } else if tag == TAG_ACK {
        if b.len() != 9 {
            return Err(DecodingError);
        }
        let acked = read_u32(b, 5);
        Ok(Packet { id, packet_data: PacketData::Ack(acked) })
    } else {
        Err(DecodingError)
    }
}

} // verus!
