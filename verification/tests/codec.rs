use undaunted::codec::{decode, encode};
use undaunted::packets::{Packet, PacketData, TalkData};

#[test]
fn talk_round_trips_through_the_codec() {
    let p = Packet::new(5, PacketData::Talk(TalkData::new("hi".to_string())));
    let bytes = encode(&p).unwrap();
    let q = decode(&bytes).unwrap();
    assert_eq!(p, q);
}

#[test]
fn ack_round_trips_through_the_codec() {
    let p = Packet::new(7, PacketData::Ack(42));
    let bytes = encode(&p).unwrap();
    let q = decode(&bytes).unwrap();
    assert_eq!(p, q);
}

#[test]
fn empty_phrase_round_trips_through_the_codec() {
    let p = Packet::new(0, PacketData::Talk(TalkData::new(String::new())));
    let bytes = encode(&p).unwrap();
    let q = decode(&bytes).unwrap();
    assert_eq!(p, q);
}

#[test]
fn unicode_phrase_round_trips_through_the_codec() {
    let p = Packet::new(9, PacketData::Talk(TalkData::new("héllo wörld ✓".to_string())));
    let bytes = encode(&p).unwrap();
    let q = decode(&bytes).unwrap();
    assert_eq!(p, q);
}

#[test]
fn encode_lays_out_ack_bytes_exactly() {
    let p = Packet::new(1, PacketData::Ack(2));
    let bytes = encode(&p).unwrap();
    assert_eq!(bytes, vec![0, 0, 0, 1, 1, 0, 0, 0, 2]);
}

#[test]
fn encode_lays_out_talk_bytes_exactly() {
    let p = Packet::new(5, PacketData::Talk(TalkData::new("hi".to_string())));
    let bytes = encode(&p).unwrap();
    assert_eq!(bytes, vec![0, 0, 0, 5, 0, 0, 0, 0, 2, 0x68, 0x69]);
}

#[test]
fn decode_rejects_truncated_input() {
    assert!(decode(&Vec::new()).is_err());
    assert!(decode(&vec![0, 0, 0, 1]).is_err());
    assert!(decode(&vec![0, 0, 0, 1, 0, 0, 0]).is_err());
}

#[test]
fn decode_rejects_unknown_discriminator() {
    assert!(decode(&vec![0, 0, 0, 1, 7, 0, 0, 0, 2]).is_err());
}

#[test]
fn decode_rejects_wrong_length_prefix() {
    // the prefix announces three bytes of text but only two follow
    assert!(decode(&vec![0, 0, 0, 5, 0, 0, 0, 0, 3, 0x68, 0x69]).is_err());
}

#[test]
fn decode_rejects_trailing_bytes_after_ack() {
    assert!(decode(&vec![0, 0, 0, 1, 1, 0, 0, 0, 2, 9]).is_err());
}

#[test]
fn decode_rejects_text_that_is_not_utf8() {
    assert!(decode(&vec![0, 0, 0, 5, 0, 0, 0, 0, 1, 0xff]).is_err());
}
