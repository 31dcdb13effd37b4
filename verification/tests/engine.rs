use undaunted::codec::{decode, encode};
use undaunted::packets::{Packet, PacketData, TalkData};
use undaunted::service::{Address, AddressPacket, Socket, SocketError, UdpNetworkService};

struct NullSocket;

impl Socket for NullSocket {
    fn send_to(&self, buf: &Vec<u8>, _addr: Address) -> Result<usize, SocketError> {
        Ok(buf.len())
    }

    fn recv_from(&self) -> Result<(Vec<u8>, Address), SocketError> {
        Ok((Vec::new(), local(0)))
    }
}

/// A loopback-style address under a chosen port.
fn local(port: u16) -> Address {
    Address::new(0, 0x7f00_0001, port)
}

fn talk(phrase: &str) -> PacketData {
    PacketData::Talk(TalkData::new(phrase.to_string()))
}

#[test]
fn queue_for_send_adds_incremented_packet_ids_for_same_client_to_send_list() {
    let mut network = UdpNetworkService::new();
    let to_addr = local(0);
    network.queue_for_send(talk("ha"), to_addr);
    network.queue_for_send(talk("ha"), to_addr);

    assert_eq!(0, network.to_send[0].packet.id);
    assert_eq!(1, network.to_send[1].packet.id);
}

#[test]
fn queue_for_send_doesnt_increment_for_different_client_ids() {
    let mut network = UdpNetworkService::new();
    network.queue_for_send(talk("ha"), local(10));
    network.queue_for_send(talk("ha"), local(11));
    network.queue_for_send(talk("ha"), local(10));
    network.queue_for_send(talk("ha"), local(11));

    assert_eq!(0, network.to_send[0].packet.id);
    assert_eq!(0, network.to_send[1].packet.id);
    assert_eq!(1, network.to_send[2].packet.id);
    assert_eq!(1, network.to_send[3].packet.id);
}

#[test]
fn send_packets_adds_sent_packets_to_unacked_list() {
    let mut network = UdpNetworkService::new();
    network.queue_for_send(talk("ha"), local(0));

    network.send_packets(&NullSocket, 0);

    assert_eq!(0, network.to_send.len());
    assert_eq!(1, network.unacked_packets.len());
}

#[test]
fn queue_for_send_adds_to_vec_to_send() {
    let mut network = UdpNetworkService::new();
    network.queue_for_send(PacketData::Ack(1), local(0));

    assert_eq!(1, network.to_send.len());
}

#[test]
fn get_packets_gives_back_correct_number_of_packets() {
    let mut network = UdpNetworkService::new();
    network.received_packets.push(AddressPacket::new(
        Packet::new(0, PacketData::Ack(1)),
        local(0),
    ));

    let received = network.get_packets();

    assert_eq!(1, received.len());
}

#[test]
fn get_packets_clears_old_packets() {
    let mut network = UdpNetworkService::new();
    network.received_packets.push(AddressPacket::new(
        Packet::new(0, PacketData::Ack(1)),
        local(0),
    ));

    let _ = network.get_packets();

    assert_eq!(0, network.received_packets.len());
}

#[test]
fn queue_for_send_appends_exactly_one_item_for_the_destination() {
    let mut network = UdpNetworkService::new();
    network.queue_for_send(talk("one"), local(3));
    let before = network.to_send.len();
    network.queue_for_send(talk("two"), local(4));

    assert_eq!(before + 1, network.to_send.len());
    assert_eq!(local(4), network.to_send[before].address);
}

#[test]
fn acks_take_the_placeholder_id_and_do_not_consume_a_sequence_number() {
    let mut network = UdpNetworkService::new();
    network.queue_for_send(PacketData::Ack(9), local(0));
    network.queue_for_send(talk("ha"), local(0));

    assert_eq!(0, network.to_send[0].packet.id);
    // the user message still gets the destination's first sequence number
    assert_eq!(0, network.to_send[1].packet.id);
}

#[test]
fn draining_twice_yields_nothing_the_second_time() {
    let mut network = UdpNetworkService::new();
    network.received_packets.push(AddressPacket::new(Packet::new(0, PacketData::Ack(1)), local(0)));
    network.received_packets.push(AddressPacket::new(Packet::new(1, PacketData::Ack(2)), local(0)));

    let first = network.get_packets();
    let second = network.get_packets();

    assert_eq!(2, first.len());
    assert_eq!(0, second.len());
}

#[test]
fn matching_ack_removes_the_unacked_record() {
    let mut network = UdpNetworkService::new();
    network.queue_for_send(talk("ha"), local(0));
    network.send_packets(&NullSocket, 0);
    assert_eq!(1, network.unacked_packets.len());

    // the acknowledgment carries the sent packet's id and arrives from the
    // destination it was sent to
    network.handle_packet(Packet::new(0, PacketData::Ack(0)), local(0));

    assert_eq!(0, network.unacked_packets.len());
}

#[test]
fn expired_record_is_requeued_and_retransmitted_in_the_same_cycle() {
    let mut network = UdpNetworkService::new();
    network.queue_for_send(talk("ha"), local(0));
    network.send_packets(&NullSocket, 0);

    // exactly at the timeout nothing has expired yet
    network.requeue_unacked_packets(1000);
    assert_eq!(0, network.to_send.len());
    assert_eq!(1, network.unacked_packets.len());

    // one millisecond past the timeout the record moves back, id preserved
    network.requeue_unacked_packets(1001);
    assert_eq!(1, network.to_send.len());
    assert_eq!(0, network.unacked_packets.len());
    assert_eq!(0, network.to_send[0].packet.id);

    // the same cycle's flush phase sends and tracks it again
    network.send_packets(&NullSocket, 1001);
    assert_eq!(0, network.to_send.len());
    assert_eq!(1, network.unacked_packets.len());
    assert_eq!(1001, network.unacked_packets[0].sent_time);
}

#[test]
fn receiving_talk_enqueues_one_ack_and_delivers_the_message() {
    let mut network = UdpNetworkService::new();
    let origin = local(8);

    network.handle_packet(Packet::new(4, talk("hello")), origin);

    assert_eq!(1, network.to_send.len());
    assert_eq!(origin, network.to_send[0].address);
    assert_eq!(PacketData::Ack(4), network.to_send[0].packet.packet_data);
    let delivered = network.get_packets();
    assert_eq!(1, delivered.len());
    assert_eq!(origin, delivered[0].address);
    assert_eq!(4, delivered[0].packet.id);
}

#[test]
fn stale_ack_leaves_the_registry_unchanged() {
    let mut network = UdpNetworkService::new();
    network.queue_for_send(talk("ha"), local(0));
    network.send_packets(&NullSocket, 0);
    assert_eq!(1, network.unacked_packets.len());

    // wrong id
    network.handle_packet(Packet::new(0, PacketData::Ack(5)), local(0));
    assert_eq!(1, network.unacked_packets.len());

    // right id, wrong origin
    network.handle_packet(Packet::new(0, PacketData::Ack(0)), local(9));
    assert_eq!(1, network.unacked_packets.len());
    assert_eq!(0, network.unacked_packets[0].address_packet.packet.id);
}

#[test]
fn two_engines_exchange_a_message_and_its_ack_over_the_wire() {
    let addr_a = local(1);
    let addr_b = local(2);
    let mut engine_a = UdpNetworkService::new();
    let mut engine_b = UdpNetworkService::new();

    // A enqueues and flushes a message bound for B
    engine_a.queue_for_send(talk("hi"), addr_b);
    let wire = encode(&engine_a.to_send[0].packet).unwrap();
    engine_a.send_packets(&NullSocket, 0);
    assert_eq!(1, engine_a.unacked_packets.len());

    // B receives the datagram, answers with an acknowledgment, and the
    // message reaches B's caller on the next drain
    let arrived = decode(&wire).unwrap();
    engine_b.handle_packet(arrived, addr_a);
    let delivered = engine_b.get_packets();
    assert_eq!(1, delivered.len());
    match &delivered[0].packet.packet_data {
        PacketData::Talk(t) => assert_eq!("hi", t.phrase),
        PacketData::Ack(_) => panic!("expected the user message"),
    }

    // B flushes the acknowledgment back to A, which empties A's registry
    let ack_wire = encode(&engine_b.to_send[0].packet).unwrap();
    engine_b.send_packets(&NullSocket, 0);
    let ack = decode(&ack_wire).unwrap();
    engine_a.handle_packet(ack, addr_b);
    assert_eq!(0, engine_a.unacked_packets.len());
}

struct FailingSocket;

impl Socket for FailingSocket {
    fn send_to(&self, _buf: &Vec<u8>, _addr: Address) -> Result<usize, SocketError> {
        Err(SocketError)
    }

    fn recv_from(&self) -> Result<(Vec<u8>, Address), SocketError> {
        Err(SocketError)
    }
}

#[test]
fn send_failure_still_tracks_the_record_for_retransmission() {
    let mut network = UdpNetworkService::new();
    network.queue_for_send(talk("ha"), local(0));
    network.send_packets(&FailingSocket, 0);
    assert_eq!(1, network.unacked_packets.len());
}
