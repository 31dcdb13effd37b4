//! The reliable delivery engine: the outbound queue, the inbound queue, the
//! unacknowledged-send registry and the per-destination sequence counters,
//! together with the operations the two driver loops and the caller invoke.
//!
//! The engine itself owns plain state and is driven explicitly; a surrounding
//! program wraps one instance in its own synchronization and runs the receive
//! and send/retransmit loops.

use vstd::prelude::*;
use crate::codec::{decode, encodable, encode, spec_decode};
use crate::packets::{Packet, PacketData, PacketDataV, PacketV};

verus! {

/// How long a sent packet may remain unacknowledged before it is requeued
/// for retransmission, in milliseconds.
pub const RETRANSMIT_TIMEOUT_MS: u64 = 1000;

/// A network address as plain values: the two big-endian halves of an IPv6
/// address (an IPv4 address is carried in its IPv4-mapped form) and a port.
#[derive(Clone, Copy, Debug, PartialEq, Eq, Structural, Hash)]
pub struct Address {
    pub ip_hi: u64,
    pub ip_lo: u64,
    pub port: u16,
}

impl Address {
    pub fn new(ip_hi: u64, ip_lo: u64, port: u16) -> (r: Address)
        ensures
            r == (Address { ip_hi, ip_lo, port }),
    {
        Address { ip_hi, ip_lo, port }
    }
}

/// A packet paired with a network address: the destination for outbound
/// items, the origin for inbound items.
#[derive(Clone, Debug, PartialEq)]
pub struct AddressPacket {
    pub packet: Packet,
    pub address: Address,
}

impl AddressPacket {
    pub fn new(packet: Packet, address: Address) -> (r: AddressPacket)
        ensures
            r.packet == packet,
            r.address == address,
    {
        AddressPacket { packet, address }
    }
}

/// Bookkeeping for a transmitted, not yet acknowledged packet: the addressed
/// packet and the instant (in milliseconds) it was transmitted.
#[derive(Clone, Debug)]
pub struct SentPacket {
    pub address_packet: AddressPacket,
    pub sent_time: u64,
}

impl SentPacket {
    pub fn new(address_packet: AddressPacket, sent_time: u64) -> (r: SentPacket)
        ensures
            r.address_packet == address_packet,
            r.sent_time == sent_time,
    {
        SentPacket { address_packet, sent_time }
    }
}

/// Mathematical model of an addressed packet.
pub ghost struct AddressPacketV {
    pub packet: PacketV,
    pub address: Address,
}

/// Mathematical model of an unacknowledged-send record.
pub ghost struct SentPacketV {
    pub ap: AddressPacketV,
    pub sent_time: u64,
}

impl View for AddressPacket {
    type V = AddressPacketV;

    open spec fn view(&self) -> AddressPacketV {
        AddressPacketV { packet: self.packet@, address: self.address }
    }
}

impl View for SentPacket {
    type V = SentPacketV;

    open spec fn view(&self) -> SentPacketV {
        SentPacketV { ap: self.address_packet@, sent_time: self.sent_time }
    }
}

pub open spec fn aps_view(s: Seq<AddressPacket>) -> Seq<AddressPacketV> {
    s.map_values(|ap: AddressPacket| ap@)
}

pub open spec fn sps_view(s: Seq<SentPacket>) -> Seq<SentPacketV> {
    s.map_values(|sp: SentPacket| sp@)
}

/// The per-destination counters a sequence of entries denotes: an earlier
/// entry for an address shadows any later one, as a front-to-back search
/// finds it first.
pub open spec fn ids_of(s: Seq<(Address, u32)>) -> Map<Address, u32>
    decreases s.len(),
{
    if s.len() == 0 {
        Map::empty()
    } else {
        ids_of(s.drop_first()).insert(s[0].0, s[0].1)
    }
}

/// Mathematical model of the whole engine state.
#[verifier::ext_equal]
pub ghost struct ServiceV {
    pub received: Seq<AddressPacketV>,
    pub to_send: Seq<AddressPacketV>,
    pub unacked: Seq<SentPacketV>,
    pub ids: Map<Address, u32>,
}

impl ServiceV {
    /// The next sequence number to assign for a destination; counters start
    /// at zero.
    pub open spec fn next_id(self, a: Address) -> u32 {
        if self.ids.dom().contains(a) {
            self.ids[a]
        } else {
            0
        }
    }
}

/// The successor of a sequence number, wrapping at the 32-bit limit.
pub open spec fn inc_id(x: u32) -> u32 {
    if x == u32::MAX {
        0
    } else {
        (x + 1) as u32
    }
}

proof fn lemma_ids_of_first_match(s: Seq<(Address, u32)>, i: int, a: Address)
    requires
        0 <= i < s.len(),
        s[i].0 == a,
        forall|j: int| 0 <= j < i ==> (#[trigger] s[j]).0 != a,
    ensures
        ids_of(s).dom().contains(a),
        ids_of(s)[a] == s[i].1,
    decreases i,
{
    if i == 0 {
    } else {
        lemma_ids_of_first_match(s.drop_first(), i - 1, a);
    }
}

proof fn lemma_ids_of_absent(s: Seq<(Address, u32)>, a: Address)
    requires
        forall|j: int| 0 <= j < s.len() ==> (#[trigger] s[j]).0 != a,
    ensures
        !ids_of(s).dom().contains(a),
    decreases s.len(),
{
    if s.len() > 0 {
        lemma_ids_of_absent(s.drop_first(), a);
    }
}

proof fn lemma_ids_of_update(s: Seq<(Address, u32)>, i: int, a: Address, x: u32)
    requires
        0 <= i < s.len(),
        s[i].0 == a,
        forall|j: int| 0 <= j < i ==> (#[trigger] s[j]).0 != a,
    ensures
        ids_of(s.update(i, (a, x))) =~= ids_of(s).insert(a, x),
    decreases i,
{
    if i == 0 {
        assert(s.update(0, (a, x)).drop_first() =~= s.drop_first());
    } else {
        lemma_ids_of_update(s.drop_first(), i - 1, a, x);
        assert(s.update(i, (a, x)).drop_first() =~= s.drop_first().update(i - 1, (a, x)));
        assert(ids_of(s.update(i, (a, x))) =~= ids_of(s.drop_first().update(i - 1, (a,
            x))).insert(s[0].0, s[0].1));
    }
}

proof fn lemma_ids_of_push(s: Seq<(Address, u32)>, a: Address, x: u32)
    requires
        forall|j: int| 0 <= j < s.len() ==> (#[trigger] s[j]).0 != a,
    ensures
        ids_of(s.push((a, x))) =~= ids_of(s).insert(a, x),
    decreases s.len(),
{
    let t = s.push((a, x));
    if s.len() == 0 {
        assert(t.drop_first() =~= Seq::<(Address, u32)>::empty());
        assert(ids_of(t.drop_first()) =~= Map::<Address, u32>::empty());
        assert(ids_of(t) =~= Map::<Address, u32>::empty().insert(a, x));
        assert(ids_of(s) =~= Map::<Address, u32>::empty());
    } else {
        lemma_ids_of_push(s.drop_first(), a, x);
        assert(t.drop_first() =~= s.drop_first().push((a, x)));
        assert(ids_of(t) =~= ids_of(s.drop_first().push((a, x))).insert(s[0].0, s[0].1));
        assert(ids_of(t) =~= ids_of(s.drop_first()).insert(a, x).insert(s[0].0, s[0].1));
        assert(ids_of(s) =~= ids_of(s.drop_first()).insert(s[0].0, s[0].1));
        assert(ids_of(s.drop_first()).insert(a, x).insert(s[0].0, s[0].1) =~= ids_of(
            s.drop_first()).insert(s[0].0, s[0].1).insert(a, x));
    }
}

/// The capability surface the engine needs from a datagram transport. A real
/// socket satisfies it; deterministic test doubles substitute it. Nothing is
/// promised of either operation's outcome.
pub trait Socket {
    fn send_to(&self, buf: &Vec<u8>, addr: Address) -> Result<usize, SocketError>;

    fn recv_from(&self) -> Result<(Vec<u8>, Address), SocketError>;
}

/// A transport failure reported by a socket; the engine treats every such
/// failure as transient.
#[derive(Clone, Copy, Debug, PartialEq, Eq, Structural)]
pub struct SocketError;

/// The reliable delivery engine.
pub struct UdpNetworkService {
    pub received_packets: Vec<AddressPacket>,
    pub to_send: Vec<AddressPacket>,
    pub unacked_packets: Vec<SentPacket>,
    pub packet_ids: Vec<(Address, u32)>,
}

impl View for UdpNetworkService {
    type V = ServiceV;

    open spec fn view(&self) -> ServiceV {
        ServiceV {
            received: aps_view(self.received_packets@),
            to_send: aps_view(self.to_send@),
            unacked: sps_view(self.unacked_packets@),
            ids: ids_of(self.packet_ids@),
        }
    }
}

/// What enqueueing a payload for a destination does: a text message takes the
/// destination's next sequence number and advances the counter; an
/// acknowledgment takes the placeholder id zero and leaves the counters
/// alone, as it never needs a fresh sequence number of its own.
pub open spec fn spec_queue(v: ServiceV, data: PacketDataV, a: Address) -> ServiceV {
    if data.is_ack() {
        ServiceV {
            to_send: v.to_send.push(
                AddressPacketV { packet: PacketV { id: 0, data }, address: a },
            ),
            ..v
        }
    } else {
        ServiceV {
            to_send: v.to_send.push(
                AddressPacketV { packet: PacketV { id: v.next_id(a), data }, address: a },
            ),
            ids: v.ids.insert(a, inc_id(v.next_id(a))),
            ..v
        }
    }
}

/// What draining the inbound queue does.
pub open spec fn spec_get(v: ServiceV) -> ServiceV {
    ServiceV { received: Seq::empty(), ..v }
}

impl UdpNetworkService {
    /// A fresh engine: every queue empty, every counter at zero.
    pub fn new() -> (r: UdpNetworkService)
        ensures
            r@ == (ServiceV {
                received: Seq::<AddressPacketV>::empty(),
                to_send: Seq::<AddressPacketV>::empty(),
                unacked: Seq::<SentPacketV>::empty(),
                ids: Map::<Address, u32>::empty(),
            }),
    {
        let r = UdpNetworkService {
            received_packets: Vec::new(),
            to_send: Vec::new(),
            unacked_packets: Vec::new(),
            packet_ids: Vec::new(),
        };
        proof {
            assert(r@ =~= ServiceV {
                received: Seq::<AddressPacketV>::empty(),
                to_send: Seq::<AddressPacketV>::empty(),
                unacked: Seq::<SentPacketV>::empty(),
                ids: Map::<Address, u32>::empty(),
            });
        }
        r
    }

    fn alloc_id(&mut self, to_addr: Address) -> (r: u32)
        ensures
            r == old(self)@.next_id(to_addr),
            final(self)@.ids == old(self)@.ids.insert(to_addr, inc_id(r)),
            final(self).received_packets == old(self).received_packets,
            final(self).to_send == old(self).to_send,
            final(self).unacked_packets == old(self).unacked_packets,
    {
        let n = self.packet_ids.len();
        let mut i: usize = 0;
        while i < n
            invariant
                n == self.packet_ids.len(),
                i <= n,
                forall|j: int| 0 <= j < i ==> (#[trigger] self.packet_ids@[j]).0 != to_addr,
                self == old(self),
            decreases n - i,
        {
            if self.packet_ids[i].0 == to_addr {
                let cur = self.packet_ids[i].1;
                let next = if cur == u32::MAX {
                    0
                } else {
                    cur + 1
                };
                proof {
                    lemma_ids_of_first_match(self.packet_ids@, i as int, to_addr);
                    lemma_ids_of_update(self.packet_ids@, i as int, to_addr, next);
                }
                self.packet_ids[i] = (to_addr, next);
                return cur;
            }
            i = i + 1;
        }
        proof {
            lemma_ids_of_absent(self.packet_ids@, to_addr);
            lemma_ids_of_push(self.packet_ids@, to_addr, 1);
        }
        self.packet_ids.push((to_addr, 1));
        0
    }

    /// Wraps a payload as an addressed packet bound for `to_addr` and appends
    /// it to the outbound queue; a non-acknowledgment payload consumes the
    /// destination's next sequence number.
    pub fn queue_for_send(&mut self, packet_data: PacketData, to_addr: Address)
        ensures
            final(self)@ == spec_queue(old(self)@, packet_data@, to_addr),
    {
        let is_ack = matches!(packet_data, PacketData::Ack(_));
        let id: u32 = if is_ack {
            0
        } else {
            self.alloc_id(to_addr)
        };
        let packet = Packet::new(id, packet_data);
        let address_packet = AddressPacket::new(packet, to_addr);
        self.to_send.push(address_packet);
        proof {
            assert(self@ =~= spec_queue(old(self)@, packet_data@, to_addr));
        }
    }

    /// Atomically empties the inbound queue and returns everything buffered
    /// since the last call, in arrival order.
    pub fn get_packets(&mut self) -> (r: Vec<AddressPacket>)
        ensures
            aps_view(r@) == old(self)@.received,
            final(self)@ == spec_get(old(self)@),
    {
        let mut r: Vec<AddressPacket> = Vec::new();
        core::mem::swap(&mut r, &mut self.received_packets);
        proof {
            assert(self@ =~= spec_get(old(self)@));
        }
        r
    }
}

/// Whether an unacknowledged record answers to an acknowledgment carrying
/// `acked` that arrived from `origin`: ids are only unique per destination,
/// so both the id and the address must match.
pub open spec fn ack_matches(sp: SentPacketV, acked: u32, origin: Address) -> bool {
    sp.ap.packet.id == acked && sp.ap.address == origin
}

/// The registry without every record a matching acknowledgment answers for,
/// in the original order.
pub open spec fn remove_acked(s: Seq<SentPacketV>, acked: u32, origin: Address) -> Seq<
    SentPacketV,
>
    decreases s.len(),
{
    if s.len() == 0 {
        Seq::empty()
    } else {
        let pre = remove_acked(s.drop_last(), acked, origin);
        if ack_matches(s.last(), acked, origin) {
            pre
        } else {
            pre.push(s.last())
        }
    }
}

/// Whether a record transmitted at instant `sent` has outlived the
/// retransmission timeout at instant `now`.
pub open spec fn expired(now: u64, sent: u64) -> bool {
    now > sent + RETRANSMIT_TIMEOUT_MS
}

/// The records the requeue phase retains, in order.
pub open spec fn keep_fresh(s: Seq<SentPacketV>, now: u64) -> Seq<SentPacketV>
    decreases s.len(),
{
    if s.len() == 0 {
        Seq::empty()
    } else {
        let pre = keep_fresh(s.drop_last(), now);
        if expired(now, s.last().sent_time) {
            pre
        } else {
            pre.push(s.last())
        }
    }
}

/// The addressed packets the requeue phase moves back to the outbound queue,
/// in order.
pub open spec fn expired_aps(s: Seq<SentPacketV>, now: u64) -> Seq<AddressPacketV>
    decreases s.len(),
{
    if s.len() == 0 {
        Seq::empty()
    } else {
        let pre = expired_aps(s.drop_last(), now);
        if expired(now, s.last().sent_time) {
            pre.push(s.last().ap)
        } else {
            pre
        }
    }
}

/// What the requeue phase does at instant `now`: every record that has
/// outlived the retransmission timeout leaves the registry and its packet —
/// with its original sequence id — rejoins the outbound queue.
pub open spec fn spec_requeue(v: ServiceV, now: u64) -> ServiceV {
    ServiceV {
        unacked: keep_fresh(v.unacked, now),
        to_send: v.to_send + expired_aps(v.unacked, now),
        ..v
    }
}

/// The records the flush phase adds to the registry: one per representable
/// non-acknowledgment packet in the batch, stamped with the transmission
/// instant. Acknowledgments are fire-and-forget and never tracked.
pub open spec fn tracked_records(batch: Seq<AddressPacketV>, now: u64) -> Seq<SentPacketV>
    decreases batch.len(),
{
    if batch.len() == 0 {
        Seq::empty()
    } else {
        let pre = tracked_records(batch.drop_last(), now);
        let ap = batch.last();
        if !ap.packet.data.is_ack() && encodable(ap.packet) {
            pre.push(SentPacketV { ap, sent_time: now })
        } else {
            pre
        }
    }
}

/// What the flush phase does at instant `now`: the outbound queue is drained
/// entirely and every representable non-acknowledgment packet becomes an
/// unacknowledged record.
pub open spec fn spec_send(v: ServiceV, now: u64) -> ServiceV {
    ServiceV {
        to_send: Seq::empty(),
        unacked: v.unacked + tracked_records(v.to_send, now),
        ..v
    }
}

/// What receiving one decoded packet does: an acknowledgment clears the
/// matching records; a user message is answered with exactly one
/// acknowledgment carrying its id and joins the inbound queue.
pub open spec fn spec_handle(v: ServiceV, p: PacketV, origin: Address) -> ServiceV {
    match p.data {
        PacketDataV::Ack(acked) => ServiceV {
            unacked: remove_acked(v.unacked, acked, origin),
            ..v
        },
        PacketDataV::Talk(_) => ServiceV {
            to_send: v.to_send.push(
                AddressPacketV {
                    packet: PacketV { id: 0, data: PacketDataV::Ack(p.id) },
                    address: origin,
                },
            ),
            received: v.received.push(AddressPacketV { packet: p, address: origin }),
            ..v
        },
    }
}

/// What receiving one datagram does: bytes that do not decode are discarded
/// and change nothing.
pub open spec fn spec_receive(v: ServiceV, bytes: Seq<u8>, origin: Address) -> ServiceV {
    match spec_decode(bytes) {
        Some(p) => spec_handle(v, p, origin),
        None => v,
    }
}

proof fn lemma_sps_front(pre: Seq<SentPacket>, rest: Seq<SentPacket>, origv: Seq<SentPacketV>, k: int)
    requires
        pre.len() > 0,
        rest == pre.remove(0),
        0 <= k,
        k + pre.len() == origv.len(),
        sps_view(pre) == origv.subrange(k, origv.len() as int),
    ensures
        sps_view(pre)[0] == origv[k],
        sps_view(rest) =~= origv.subrange(k + 1, origv.len() as int),
{
    assert(origv.subrange(k, origv.len() as int)[0] == origv[k]);
    assert forall|j: int| 0 <= j < rest.len() implies #[trigger] sps_view(rest)[j] == origv[k + 1
        + j] by {
        assert(rest[j] == pre[j + 1]);
        assert(sps_view(pre)[j + 1] == origv.subrange(k, origv.len() as int)[j + 1]);
        assert(origv.subrange(k, origv.len() as int)[j + 1] == origv[k + 1 + j]);
    }
    assert(sps_view(rest) =~= origv.subrange(k + 1, origv.len() as int));
}

proof fn lemma_aps_front(
    pre: Seq<AddressPacket>,
    rest: Seq<AddressPacket>,
    origv: Seq<AddressPacketV>,
    k: int,
)
    requires
        pre.len() > 0,
        rest == pre.remove(0),
        0 <= k,
        k + pre.len() == origv.len(),
        aps_view(pre) == origv.subrange(k, origv.len() as int),
    ensures
        aps_view(pre)[0] == origv[k],
        aps_view(rest) =~= origv.subrange(k + 1, origv.len() as int),
{
    assert(origv.subrange(k, origv.len() as int)[0] == origv[k]);
    assert forall|j: int| 0 <= j < rest.len() implies #[trigger] aps_view(rest)[j] == origv[k + 1
        + j] by {
        assert(rest[j] == pre[j + 1]);
        assert(aps_view(pre)[j + 1] == origv.subrange(k, origv.len() as int)[j + 1]);
        assert(origv.subrange(k, origv.len() as int)[j + 1] == origv[k + 1 + j]);
    }
    assert(aps_view(rest) =~= origv.subrange(k + 1, origv.len() as int));
}

/// Relies on chrono's `Utc::now` and `DateTime::timestamp_millis` for the
/// current wall-clock time in milliseconds; nothing is assumed about the
/// value returned.
#[verifier::external_body]
fn current_millis() -> u64 {
    chrono::Utc::now().timestamp_millis() as u64
}

impl UdpNetworkService {
    /// Removes from the registry every record whose packet id and destination
    /// match an acknowledgment for `id` arriving from `address`; a stale or
    /// duplicate acknowledgment matches nothing and changes nothing.
    pub fn remove_unacked_packet(&mut self, id: u32, address: Address)
        ensures
            final(self)@ == (ServiceV {
                unacked: remove_acked(old(self)@.unacked, id, address),
                ..old(self)@
            }),
    {
        let mut olds: Vec<SentPacket> = Vec::new();
        core::mem::swap(&mut olds, &mut self.unacked_packets);
        let ghost origv = sps_view(olds@);
        let mut kept: Vec<SentPacket> = Vec::new();
        let ghost mut k: int = 0;
        while olds.len() > 0
            invariant
                0 <= k <= origv.len(),
                k + olds@.len() == origv.len(),
                sps_view(olds@) =~= origv.subrange(k, origv.len() as int),
                sps_view(kept@) =~= remove_acked(origv.subrange(0, k), id, address),
            decreases olds.len(),
        {
            let ghost pre = olds@;
            let sp = olds.remove(0);
            proof {
                lemma_sps_front(pre, olds@, origv, k);
                assert(sps_view(pre)[0] == sp@);
                assert(sp@ == origv[k]);
                assert(origv.subrange(0, k + 1).drop_last() =~= origv.subrange(0, k));
                assert(origv.subrange(0, k + 1).last() == origv[k]);
            }
            if !(sp.address_packet.packet.id == id && sp.address_packet.address == address) {
                kept.push(sp);
            }
            proof {
                k = k + 1;
                assert(sps_view(kept@) =~= remove_acked(origv.subrange(0, k), id, address));
            }
        }
        self.unacked_packets = kept;
        proof {
            assert(origv.subrange(0, origv.len() as int) =~= origv);
            assert(self@ =~= ServiceV {
                unacked: remove_acked(old(self)@.unacked, id, address),
                ..old(self)@
            });
        }
    }

    /// The requeue phase: scans the registry at instant `now` and moves every
    /// record that has outlived the retransmission timeout back onto the
    /// outbound queue, preserving its original sequence id.
    pub fn requeue_unacked_packets(&mut self, now: u64)
        ensures
            final(self)@ == spec_requeue(old(self)@, now),
    {
        let mut olds: Vec<SentPacket> = Vec::new();
        core::mem::swap(&mut olds, &mut self.unacked_packets);
        let ghost origv = sps_view(olds@);
        let mut kept: Vec<SentPacket> = Vec::new();
        let mut moved: Vec<AddressPacket> = Vec::new();
        let ghost mut k: int = 0;
        while olds.len() > 0
            invariant
                0 <= k <= origv.len(),
                k + olds@.len() == origv.len(),
                sps_view(olds@) =~= origv.subrange(k, origv.len() as int),
                sps_view(kept@) =~= keep_fresh(origv.subrange(0, k), now),
                aps_view(moved@) =~= expired_aps(origv.subrange(0, k), now),
            decreases olds.len(),
        {
            let ghost pre = olds@;
            let sp = olds.remove(0);
            proof {
                lemma_sps_front(pre, olds@, origv, k);
                assert(sps_view(pre)[0] == sp@);
                assert(sp@ == origv[k]);
                assert(origv.subrange(0, k + 1).drop_last() =~= origv.subrange(0, k));
                assert(origv.subrange(0, k + 1).last() == origv[k]);
            }
            let is_expired = now > sp.sent_time && now - sp.sent_time > RETRANSMIT_TIMEOUT_MS;
            proof {
                assert(is_expired == expired(now, sp.sent_time));
            }
            if is_expired {
                moved.push(sp.address_packet);
            } else {
                kept.push(sp);
            }
            proof {
                k = k + 1;
                assert(sps_view(kept@) =~= keep_fresh(origv.subrange(0, k), now));
                assert(aps_view(moved@) =~= expired_aps(origv.subrange(0, k), now));
            }
        }
        self.unacked_packets = kept;
        self.to_send.append(&mut moved);
        proof {
            assert(origv.subrange(0, origv.len() as int) =~= origv);
            assert(self@ =~= spec_requeue(old(self)@, now));
        }
    }

    /// The flush phase: drains the whole outbound queue, encodes and
    /// transmits each packet at instant `now`, and records every
    /// representable non-acknowledgment packet as awaiting acknowledgment. A
    /// transmission failure abandons that attempt only: the record still
    /// enters the registry and retransmission gives the packet its next
    /// chance.
    pub fn send_packets<S: Socket>(&mut self, socket: &S, now: u64)
        ensures
            final(self)@ == spec_send(old(self)@, now),
    {
        let mut batch: Vec<AddressPacket> = Vec::new();
        core::mem::swap(&mut batch, &mut self.to_send);
        let ghost batchv = aps_view(batch@);
        let ghost base_unacked = sps_view(self.unacked_packets@);
        let ghost base_received = self.received_packets@;
        let ghost base_ids = self.packet_ids@;
        let ghost mut k: int = 0;
        while batch.len() > 0
            invariant
                0 <= k <= batchv.len(),
                k + batch@.len() == batchv.len(),
                aps_view(batch@) =~= batchv.subrange(k, batchv.len() as int),
                sps_view(self.unacked_packets@) =~= base_unacked + tracked_records(
                    batchv.subrange(0, k),
                    now,
                ),
                self.to_send@.len() == 0,
                self.received_packets@ == base_received,
                self.packet_ids@ == base_ids,
            decreases batch.len(),
        {
            let ghost pre = batch@;
            let ap = batch.remove(0);
            proof {
                lemma_aps_front(pre, batch@, batchv, k);
                assert(aps_view(pre)[0] == ap@);
                assert(ap@ == batchv[k]);
                assert(batchv.subrange(0, k + 1).drop_last() =~= batchv.subrange(0, k));
                assert(batchv.subrange(0, k + 1).last() == batchv[k]);
            }
            let ghost apv = ap@;
            let ghost pre_unacked = self.unacked_packets@;
            let mut pushed = false;
            match encode(&ap.packet) {
                Ok(bytes) => {
                    let _ = socket.send_to(&bytes, ap.address);
                    if !matches!(ap.packet.packet_data, PacketData::Ack(_)) {
                        self.unacked_packets.push(SentPacket::new(ap, now));
                        pushed = true;
                    }
                },
                Err(_) => {},
            }
            proof {
                k = k + 1;
                assert(apv == batchv.subrange(0, k).last());
                assert(pushed == (!apv.packet.data.is_ack() && encodable(apv.packet)));
                if pushed {
                    assert(self.unacked_packets@ == pre_unacked.push(
                        self.unacked_packets@.last(),
                    ));
                    assert(self.unacked_packets@.last()@ == (SentPacketV {
                        ap: apv,
                        sent_time: now,
                    }));
                    assert(tracked_records(batchv.subrange(0, k), now) =~= tracked_records(
                        batchv.subrange(0, k - 1),
                        now,
                    ).push(SentPacketV { ap: apv, sent_time: now }));
                    assert(sps_view(self.unacked_packets@) =~= sps_view(pre_unacked).push(
                        SentPacketV { ap: apv, sent_time: now },
                    ));
                    assert(base_unacked + tracked_records(batchv.subrange(0, k), now) =~= (
                    base_unacked + tracked_records(batchv.subrange(0, k - 1), now)).push(
                        SentPacketV { ap: apv, sent_time: now },
                    ));
                } else {
                    assert(self.unacked_packets@ == pre_unacked);
                    assert(tracked_records(batchv.subrange(0, k), now) =~= tracked_records(
                        batchv.subrange(0, k - 1),
                        now,
                    ));
                }
                assert(sps_view(self.unacked_packets@) =~= base_unacked + tracked_records(
                    batchv.subrange(0, k),
                    now,
                ));
            }
        }
        proof {
            assert(batchv.subrange(0, batchv.len() as int) =~= batchv);
            assert(self@ =~= spec_send(old(self)@, now));
        }
    }

    /// Dispatches one decoded packet that arrived from `origin`: an
    /// acknowledgment clears the matching records; a user message is answered
    /// with exactly one acknowledgment carrying its id and joins the inbound
    /// queue.
    pub fn handle_packet(&mut self, packet: Packet, origin: Address)
        ensures
            final(self)@ == spec_handle(old(self)@, packet@, origin),
    {
        let acked: Option<u32> = match &packet.packet_data {
            PacketData::Ack(x) => Some(*x),
            PacketData::Talk(_) => None,
        };
        match acked {
            Some(x) => {
                self.remove_unacked_packet(x, origin);
                proof {
                    assert(self@ =~= spec_handle(old(self)@, packet@, origin));
                }
            },
            None => {
                let id = packet.id;
                self.queue_for_send(PacketData::Ack(id), origin);
                let address_packet = AddressPacket::new(packet, origin);
                self.received_packets.push(address_packet);
                proof {
                    assert(self@ =~= spec_handle(old(self)@, packet@, origin));
                }
            },
        }
    }

    /// One pass of the receive loop body, minus the blocking itself: asks the
    /// socket for a datagram and dispatches it. A transport failure or a
    /// datagram that does not decode is discarded and changes nothing.
    pub fn receive_packets<S: Socket>(&mut self, socket: &S)
        ensures
            exists|bytes: Seq<u8>, origin: Address|
                final(self)@ == spec_receive(old(self)@, bytes, origin),
    {
        match socket.recv_from() {
            Ok(pair) => {
                let (data, origin) = pair;
                match decode(&data) {
                    Ok(packet) => {
                        self.handle_packet(packet, origin);
                        proof {
                            assert(self@ == spec_receive(old(self)@, data@, origin));
                        }
                    },
                    Err(_) => {
                        proof {
                            assert(self@ == spec_receive(old(self)@, data@, origin));
                        }
                    },
                }
            },
            Err(_) => {
                proof {
                    let bytes = Seq::<u8>::empty();
                    let origin = Address { ip_hi: 0, ip_lo: 0, port: 0 };
                    assert(self@ == spec_receive(old(self)@, bytes, origin));
                }
            },
        }
    }

    /// One pass of the send/retransmit loop body, minus the sleep: reads the
    /// clock once, requeues every record that has outlived the retransmission
    /// timeout, then flushes the whole outbound queue.
    pub fn run_send_cycle<S: Socket>(&mut self, socket: &S)
        ensures
            exists|now: u64| final(self)@ == spec_send(spec_requeue(old(self)@, now), now),
            final(self)@.to_send.len() == 0,
            final(self)@.received == old(self)@.received,
            final(self)@.ids == old(self)@.ids,
    {
        let now = current_millis();
        self.requeue_unacked_packets(now);
        self.send_packets(socket, now);
        proof {
            assert(self@ == spec_send(spec_requeue(old(self)@, now), now));
        }
    }
}

/// Law: two enqueues of user messages for one destination are assigned
/// sequence numbers that differ and are strictly increasing in call order.
/// (A counter standing at the 32-bit limit would wrap to zero, so that single
/// state is left out.)
pub proof fn lemma_sequence_ids_increase(v: ServiceV, d1: PacketDataV, d2: PacketDataV, a: Address)
    requires
        !d1.is_ack(),
        !d2.is_ack(),
        v.next_id(a) < u32::MAX,
    ensures
        ({
            let v1 = spec_queue(v, d1, a);
            let v2 = spec_queue(v1, d2, a);
            &&& v1.to_send.last().packet.id == v.next_id(a)
            &&& v2.to_send.last().packet.id == v.next_id(a) + 1
            &&& v1.to_send.last().packet.id < v2.to_send.last().packet.id
        }),
{
}

/// Law: counters for different destinations are independent: an enqueue for
/// one destination leaves every other destination's next sequence number
/// unchanged.
pub proof fn lemma_counters_independent(v: ServiceV, d: PacketDataV, a: Address, b: Address)
    requires
        a != b,
    ensures
        spec_queue(v, d, a).next_id(b) == v.next_id(b),
{
}

/// Law: a destination never enqueued to starts counting at zero.
pub proof fn lemma_counter_starts_at_zero(v: ServiceV, a: Address)
    requires
        !v.ids.dom().contains(a),
    ensures
        v.next_id(a) == 0,
{
}

/// Law: draining the inbound queue empties it, so a second drain without new
/// arrivals yields nothing and changes nothing further.
pub proof fn lemma_drain_twice(v: ServiceV)
    ensures
        spec_get(v).received == Seq::<AddressPacketV>::empty(),
        spec_get(spec_get(v)) == spec_get(v),
{
    assert(spec_get(spec_get(v)) =~= spec_get(v));
}

proof fn lemma_expired_aps_contains(s: Seq<SentPacketV>, now: u64, i: int)
    requires
        0 <= i < s.len(),
        expired(now, s[i].sent_time),
    ensures
        expired_aps(s, now).contains(s[i].ap),
    decreases s.len(),
{
    let e = expired_aps(s, now);
    if i == s.len() - 1 {
        assert(e.last() == s[i].ap);
        assert(e[e.len() - 1] == s[i].ap);
    } else {
        lemma_expired_aps_contains(s.drop_last(), now, i);
        let pre = expired_aps(s.drop_last(), now);
        let j = choose|j: int| 0 <= j < pre.len() && pre[j] == s[i].ap;
        assert(e[j] == s[i].ap);
    }
}

proof fn lemma_keep_fresh_drops_expired(s: Seq<SentPacketV>, now: u64)
    ensures
        forall|j: int|
            0 <= j < keep_fresh(s, now).len() ==> !expired(
                now,
                (#[trigger] keep_fresh(s, now)[j]).sent_time,
            ),
    decreases s.len(),
{
    if s.len() > 0 {
        lemma_keep_fresh_drops_expired(s.drop_last(), now);
    }
}

/// Law: a record that has outlived the retransmission timeout is moved back
/// to the outbound queue by the requeue phase, no expired record remains in
/// the registry afterwards, and the same cycle's flush phase sends the whole
/// outbound queue.
pub proof fn lemma_expired_record_requeued(v: ServiceV, now: u64, i: int)
    requires
        0 <= i < v.unacked.len(),
        expired(now, v.unacked[i].sent_time),
    ensures
        spec_requeue(v, now).to_send.contains(v.unacked[i].ap),
        forall|j: int|
            0 <= j < spec_requeue(v, now).unacked.len() ==> !expired(
                now,
                (#[trigger] spec_requeue(v, now).unacked[j]).sent_time,
            ),
        spec_send(spec_requeue(v, now), now).to_send == Seq::<AddressPacketV>::empty(),
{
    lemma_expired_aps_contains(v.unacked, now, i);
    let e = expired_aps(v.unacked, now);
    let j = choose|j: int| 0 <= j < e.len() && e[j] == v.unacked[i].ap;
    assert(spec_requeue(v, now).to_send[v.to_send.len() + j] == v.unacked[i].ap);
    lemma_keep_fresh_drops_expired(v.unacked, now);
}

proof fn lemma_remove_acked_no_match(s: Seq<SentPacketV>, acked: u32, origin: Address)
    requires
        forall|j: int| 0 <= j < s.len() ==> !ack_matches(#[trigger] s[j], acked, origin),
    ensures
        remove_acked(s, acked, origin) == s,
    decreases s.len(),
{
    if s.len() == 0 {
        assert(remove_acked(s, acked, origin) =~= s);
    } else {
        lemma_remove_acked_no_match(s.drop_last(), acked, origin);
        assert(remove_acked(s, acked, origin) =~= s);
    }
}

/// Law: an acknowledgment whose id and origin match no unacknowledged record
/// leaves the engine's state unchanged, and raises no error.
pub proof fn lemma_stale_ack_ignored(v: ServiceV, p: PacketV, origin: Address)
    requires
        p.data matches PacketDataV::Ack(acked) && forall|j: int|
            0 <= j < v.unacked.len() ==> !ack_matches(#[trigger] v.unacked[j], acked, origin),
    ensures
        spec_handle(v, p, origin) == v,
{
    match p.data {
        PacketDataV::Ack(acked) => {
            lemma_remove_acked_no_match(v.unacked, acked, origin);
            assert(spec_handle(v, p, origin) =~= v);
        },
        PacketDataV::Talk(_) => {
        },
    }
}

/// Law: receiving a user message enqueues exactly one acknowledgment —
/// addressed to the origin and carrying the received packet's id — and the
/// message itself is appended to the inbound queue, which the next drain
/// hands out; the registry and the counters are untouched.
pub proof fn lemma_talk_acked_and_delivered(v: ServiceV, p: PacketV, origin: Address)
    requires
        !p.data.is_ack(),
    ensures
        ({
            let w = spec_handle(v, p, origin);
            &&& w.to_send == v.to_send.push(
                AddressPacketV {
                    packet: PacketV { id: 0, data: PacketDataV::Ack(p.id) },
                    address: origin,
                },
            )
            &&& w.received == v.received.push(AddressPacketV { packet: p, address: origin })
            &&& w.unacked == v.unacked
            &&& w.ids == v.ids
        }),
{
}

} // verus!
