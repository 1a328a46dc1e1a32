use db::packet::Packet;
use db::packet::PacketError;

#[test]
fn new_packet_is_empty() {
    let packet = Packet::new(64);
    assert_eq!(packet.data(), &[] as &[u8]);
    assert_eq!(packet.header_offset(), 0);
    assert_eq!(packet.payload_offset(), 0);
    assert_eq!(packet.room(), 64);
    assert_eq!(packet.get_header(), &[] as &[u8]);
    assert_eq!(packet.get_payload(), &[] as &[u8]);
}

#[test]
fn add_to_payload_tail_appends() {
    let mut packet = Packet::new(8);
    assert_eq!(packet.add_to_payload_tail(&[1, 2, 3]), Ok(()));
    assert_eq!(packet.add_to_payload_tail(&[4, 5]), Ok(()));
    assert_eq!(packet.get_payload(), &[1, 2, 3, 4, 5]);
    assert_eq!(packet.room(), 3);
}

#[test]
fn add_to_payload_tail_fails_whole_when_full() {
    let mut packet = Packet::new(4);
    assert_eq!(packet.add_to_payload_tail(&[1, 2, 3]), Ok(()));
    assert_eq!(
        packet.add_to_payload_tail(&[4, 5]),
        Err(PacketError::FailedAllocation)
    );
    assert_eq!(packet.data(), &[1, 2, 3]);
    assert_eq!(packet.add_to_payload_tail(&[4]), Ok(()));
    assert_eq!(packet.add_to_payload_tail(&[]), Ok(()));
    assert_eq!(packet.add_to_payload_tail(&[5]), Err(PacketError::FailedAllocation));
    assert_eq!(packet.data(), &[1, 2, 3, 4]);
}

#[test]
fn parse_header_moves_the_cursor_only() {
    let mut packet = Packet::new(32);
    packet.add_to_payload_tail(&[1, 2, 3, 4, 5, 6]).unwrap();
    let packet = packet.parse_header(2);
    assert_eq!(packet.get_header(), &[1, 2]);
    assert_eq!(packet.get_payload(), &[3, 4, 5, 6]);
    let packet = packet.parse_header(3);
    assert_eq!(packet.header_offset(), 2);
    assert_eq!(packet.payload_offset(), 5);
    assert_eq!(packet.get_header(), &[3, 4, 5]);
    assert_eq!(packet.get_payload(), &[6]);
    assert_eq!(packet.data(), &[1, 2, 3, 4, 5, 6]);
}

#[test]
fn deparse_header_undoes_parse_header() {
    let mut packet = Packet::new(32);
    packet.add_to_payload_tail(&[1, 2, 3, 4, 5, 6]).unwrap();
    let packet = packet.parse_header(2).parse_header(3).deparse_header(2);
    assert_eq!(packet.header_offset(), 0);
    assert_eq!(packet.payload_offset(), 2);
    assert_eq!(packet.get_header(), &[1, 2]);
    assert_eq!(packet.get_payload(), &[3, 4, 5, 6]);
}

#[test]
fn push_header_inserts_in_front_of_the_payload() {
    let mut packet = Packet::new(32);
    packet.add_to_payload_tail(&[1, 2, 9, 9]).unwrap();
    let packet = packet.parse_header(2);
    let packet = packet.push_header(&[7, 8]).unwrap();
    assert_eq!(packet.data(), &[1, 2, 7, 8, 9, 9]);
    assert_eq!(packet.get_header(), &[7, 8]);
    assert_eq!(packet.get_payload(), &[9, 9]);
    assert_eq!(packet.header_offset(), 2);
    assert_eq!(packet.payload_offset(), 4);
}

#[test]
fn push_header_needs_room() {
    let mut packet = Packet::new(5);
    packet.add_to_payload_tail(&[1, 2, 3]).unwrap();
    assert!(packet.push_header(&[7, 8, 9]).is_none());
    let mut packet = Packet::new(5);
    packet.add_to_payload_tail(&[1, 2, 3]).unwrap();
    assert!(packet.push_header(&[7, 8]).is_some());
}

#[test]
fn write_header_overwrites_in_place() {
    let mut packet = Packet::new(32);
    packet.add_to_payload_tail(&[1, 2, 3, 4, 5, 6, 7]).unwrap();
    let mut packet = packet.parse_header(1).parse_header(4);
    packet.write_header(1, &[0xaa, 0xbb]);
    assert_eq!(packet.data(), &[1, 2, 0xaa, 0xbb, 5, 6, 7]);
    packet.write_header(0, &[]);
    packet.write_header(3, &[0xcc]);
    assert_eq!(packet.get_header(), &[2, 0xaa, 0xbb, 0xcc]);
    assert_eq!(packet.get_payload(), &[6, 7]);
    assert_eq!(packet.header_offset(), 1);
}
