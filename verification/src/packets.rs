//! The wire-level message model: a packet carries an identifier and a tagged
//! payload, which is either a user-facing text message or an acknowledgment
//! of a previously received packet id.

use vstd::prelude::*;

verus! {

/// A user-facing text message.
#[derive(Clone, Debug, PartialEq)]
pub struct TalkData {
    pub phrase: String,
}

/// The tagged payload of a packet, decidable from the wire bytes alone.
#[derive(Clone, Debug, PartialEq)]
pub enum PacketData {
    Talk(TalkData),
    Ack(u32),
}

/// The atomic unit of data exchanged: an id (scoped to the sending peer and
/// a single destination) plus a payload.
#[derive(Clone, Debug, PartialEq)]
pub struct Packet {
    pub id: u32,
    pub packet_data: PacketData,
}

/// Mathematical model of a payload: a text message is its character sequence.
pub ghost enum PacketDataV {
    Talk(Seq<char>),
    Ack(u32),
}

/// Mathematical model of a packet.
pub ghost struct PacketV {
    pub id: u32,
    pub data: PacketDataV,
}

impl PacketDataV {
    pub open spec fn is_ack(self) -> bool {
        self matches PacketDataV::Ack(_)
    }
}

impl View for TalkData {
    type V = Seq<char>;

    open spec fn view(&self) -> Seq<char> {
        self.phrase@
    }
}

impl View for PacketData {
    type V = PacketDataV;

    open spec fn view(&self) -> PacketDataV {
        match self {
            PacketData::Talk(t) => PacketDataV::Talk(t@),
            PacketData::Ack(x) => PacketDataV::Ack(*x),
        }
    }
}

impl View for Packet {
    type V = PacketV;

    open spec fn view(&self) -> PacketV {
        PacketV { id: self.id, data: self.packet_data@ }
    }
}

impl TalkData {
    pub fn new(phrase: String) -> (r: TalkData)
        ensures
            r@ == phrase@,
    {
        TalkData { phrase }
    }
}

impl Packet {
    pub fn new(id: u32, packet_data: PacketData) -> (r: Packet)
        ensures
            r@ == (PacketV { id, data: packet_data@ }),
    {
        Packet { id, packet_data }
    }
}

} // verus!
