use tuple_space::tuple::tuple::{Tuple, TupleBuilder, TupleField, TupleParseError};
use tuple_space::tuple_packet::consts::{
    TS_FLAG_ACK, TS_FLAG_HELLO, TS_REQ_EMPTY, TS_REQ_INP, TS_REQ_OUT,
};
use tuple_space::tuple_packet::tuple_packet::{
    add_bits, TuplePacket, TuplePacketBuilder, TuplePacketError,
};
use tuple_space::util::Serializable;

fn parse(text: &str) -> Tuple {
    let bits: Vec<Option<u32>> = Tuple::float_literals(text)
        .iter()
        .map(|literal| literal.parse::<f32>().ok().map(f32::to_bits))
        .collect();
    Tuple::from_str(text, &bits).unwrap()
}

fn test_serialize(tuple: Tuple) {
    let mut packet = TuplePacket::new(tuple, 0, None);
    packet.checksum = Some(packet.calculate_checksum());

    let packet_ser = packet.serialize();

    let packet_des = TuplePacket::deserialize(&packet_ser).unwrap();
    assert_eq!(packet, packet_des);
}

#[test]
fn tuple_packet_serialize_test1() {
    let tuple = parse("('tuple1', int 123, float 32, int ?)");

    test_serialize(tuple);
}

#[test]
fn tuple_packet_serialize_test2() {
    let tuple = parse("('tuple2')");

    test_serialize(tuple);
}

#[test]
fn tuple_packet_serialize_test3() {
    let tuple = parse("('tuple3', int ?, float ?, float 2137)");

    test_serialize(tuple);
}

#[test]
fn tuple_packet_tuple_packet_builder_test() {
    let tuple_packet1 = TuplePacketBuilder::new()
        .req_type(TS_REQ_EMPTY)
        .flags(TS_FLAG_HELLO)
        .build();
    let mut tuple_packet2 = TuplePacket::default();
    tuple_packet2.req_type = TS_REQ_EMPTY;
    tuple_packet2.flags = TS_FLAG_HELLO;

    println!("tuple_packet1: {tuple_packet1:?}");
    println!("tuple_packet2: {tuple_packet2:?}");
    assert_eq!(tuple_packet1.checksum, Some(tuple_packet1.calculate_checksum()));
    assert_eq!(tuple_packet2.checksum, None);
}

#[test]
fn tuple_space_serialize_test1() {
    let tuple = parse("('tuple1', int 123, float 32, int ?)");

    test_serialize(tuple);
}

#[test]
fn tuple_space_serialize_test2() {
    let tuple = parse("('tuple2')");

    test_serialize(tuple);
}

#[test]
fn tuple_space_serialize_test3() {
    let tuple = parse("('tuple3', int ?, float ?, float 2137)");

    test_serialize(tuple);
}

#[test]
fn tuple_space_tuple_packet_builder_test() {
    let tuple_packet1 = TuplePacketBuilder::new()
        .req_type(TS_REQ_EMPTY)
        .flags(TS_FLAG_HELLO)
        .build();
    let mut tuple_packet2 = TuplePacket::empty();
    tuple_packet2.req_type = TS_REQ_EMPTY;
    tuple_packet2.flags = TS_FLAG_HELLO;

    println!("tuple_packet1: {tuple_packet1:?}");
    println!("tuple_packet2: {tuple_packet2:?}");
    assert_eq!(tuple_packet1.req_type, tuple_packet2.req_type);
    assert_eq!(tuple_packet1.flags, tuple_packet2.flags);
}

#[test]
fn wire_layout() {
    let packet = TuplePacketBuilder::new()
        .req_type(TS_REQ_OUT)
        .flags(TS_FLAG_ACK | TS_FLAG_HELLO)
        .num(0x01_02_03)
        .tuple(TupleBuilder::new().name("a").field(TupleField::Int(Some(3))).build())
        .build();
    let bytes = packet.serialize();
    // set bits: opcode 1, flags 2, num 1 + 1 + 2, name 3, count 1, tag 2, payload 2
    assert_eq!(
        bytes,
        vec![0b001_01001, 1, 2, 3, b'a', 0, 0, 0, 0, 1, 0x90, 0, 0, 0, 3, 15]
    );
    assert_eq!(packet.checksum, Some(15));
    assert_eq!(TuplePacket::deserialize(&bytes), Ok(packet));
}

#[test]
fn packet_without_a_tuple_is_five_bytes() {
    let packet = TuplePacketBuilder::new().req_type(TS_REQ_INP).num(0xFFFFFF).build();
    let bytes = packet.serialize();
    assert_eq!(bytes, vec![0b011_00000, 0xFF, 0xFF, 0xFF, 26]);
    let back = TuplePacket::deserialize(&bytes).unwrap();
    assert_eq!(back, packet);
    assert_eq!(back.tuple, None);
}

#[test]
fn bits_beyond_the_widths_do_not_reach_the_wire() {
    let packet = TuplePacketBuilder::new().req_type(0xFF).flags(0xFF).num(0xFFFF_FFFF).build();
    let bytes = packet.serialize();
    assert_eq!(&bytes[..4], &[0xFF, 0xFF, 0xFF, 0xFF]);
    let back = TuplePacket::deserialize(&bytes).unwrap();
    assert_eq!((back.req_type, back.flags, back.num), (7, 31, 0xFF_FFFF));
}

#[test]
fn num_survives_the_round_trip() {
    for num in [0, 1, 0x80_00_00, 0xFF_FF_FF, 0x12_34_56] {
        let packet = TuplePacketBuilder::new().num(num).build();
        assert_eq!(TuplePacket::deserialize(&packet.serialize()).unwrap().num, num);
    }
}

#[test]
fn fresh_numbers_have_24_bits() {
    for _ in 0..64 {
        assert!(TuplePacket::empty().num < 1 << 24);
        assert!(TuplePacketBuilder::new().build().num < 1 << 24);
        assert!(TuplePacket::new(Tuple::new("n"), TS_REQ_OUT, Some(TS_FLAG_ACK)).num < 1 << 24);
    }
}

#[test]
fn number_is_the_low_24_bits() {
    assert_eq!(TuplePacket::num_from(0), 0);
    assert_eq!(TuplePacket::num_from(0x0100_0005), 5);
    assert_eq!(TuplePacket::num_from(0xFFFF_FFFF), 0xFF_FFFF);
    assert_eq!(TuplePacket::num_from(0x00AB_CDEF), 0xAB_CDEF);
}

#[test]
fn packets_with_a_given_number() {
    let p = TuplePacket::empty_with_num(77);
    assert_eq!(
        (p.req_type, p.flags, p.num, p.tuple, p.checksum),
        (TS_REQ_EMPTY, 0, 77, None, None)
    );
    let q = TuplePacket::new_with_num(Tuple::new("n"), TS_REQ_OUT, Some(TS_FLAG_ACK), 78);
    assert_eq!(
        (q.req_type, q.flags, q.num, q.tuple, q.checksum),
        (TS_REQ_OUT, TS_FLAG_ACK, 78, Some(Tuple::new("n")), None)
    );
    assert_eq!(TuplePacket::new_with_num(Tuple::new("n"), TS_REQ_OUT, None, 1).flags, 0);
    assert_eq!(TuplePacketBuilder::new().num(5).build(), {
        let mut e = TuplePacket::empty_with_num(5);
        e.checksum = Some(e.calculate_checksum());
        e
    });
}

#[test]
fn new_packet_has_the_given_parts() {
    let p = TuplePacket::new(Tuple::new("n"), TS_REQ_OUT, Some(TS_FLAG_ACK));
    assert_eq!((p.req_type, p.flags, p.checksum), (TS_REQ_OUT, TS_FLAG_ACK, None));
    assert_eq!(p.tuple, Some(Tuple::new("n")));
    assert_eq!(TuplePacket::new(Tuple::new("n"), TS_REQ_OUT, None).flags, 0);
}

#[test]
fn increment_num_wraps() {
    let mut p = TuplePacket::empty();
    p.num = 5;
    assert_eq!(p.increment_num(), 6);
    p.num = 0xFF_FF_FF;
    assert_eq!(p.increment_num(), 0);
    p.num = u32::MAX;
    assert_eq!(p.increment_num(), 0);
}

#[test]
fn checksum_counts_set_bits() {
    assert_eq!(add_bits(0, 0), 0);
    assert_eq!(add_bits(0, 0b1011), 3);
    assert_eq!(add_bits(250, 0xFFFF_FFFF), 26);
    let mut p = TuplePacket::empty();
    p.req_type = 0b101;
    p.flags = 0b11000;
    p.num = 0x00_F0_01;
    assert_eq!(p.calculate_checksum(), 2 + 2 + 5);
}

#[test]
fn checksum_is_taken_modulo_256() {
    // 31 bytes of 0xFF in the name give 248 set bits; five fields of -1 give 5 * (2 + 32).
    let name: String = std::iter::repeat('\u{7f}').take(31).collect();
    let mut builder = TupleBuilder::new().name(&name);
    for _ in 0..5 {
        builder = builder.field(TupleField::Int(Some(-1)));
    }
    let tuple = builder.build();
    let bits: u32 = tuple.serialize().iter().map(|b| b.count_ones()).sum();
    assert!(bits > 255);
    let p = TuplePacketBuilder::new().num(0).tuple(tuple).build();
    assert_eq!(p.checksum, Some((bits % 256) as u8));
}

#[test]
fn flipped_bit_changes_the_checksum() {
    let packet = TuplePacketBuilder::new()
        .req_type(TS_REQ_OUT)
        .num(77)
        .tuple(parse("('k', int 1)"))
        .build();
    let bytes = packet.serialize();
    let mut mismatches = 0;
    for position in 0..bytes.len() - 1 {
        let mut damaged = bytes.clone();
        damaged[position] ^= 0b0000_0100;
        // damage to the terminator, the count or the tag leaves no packet at all
        if let Ok(received) = TuplePacket::deserialize(&damaged) {
            assert_ne!(received.checksum, Some(received.calculate_checksum()));
            mismatches += 1;
        } else {
            assert!((5..=10).contains(&position));
        }
    }
    assert_eq!(mismatches, 9);
}

#[test]
fn short_buffers_are_an_invalid_length() {
    assert_eq!(TuplePacket::deserialize(&[]), Err(TuplePacketError::InvalidLength(0)));
    assert_eq!(TuplePacket::deserialize(&[1]), Err(TuplePacketError::InvalidLength(4)));
    assert_eq!(TuplePacket::deserialize(&[1, 2, 3]), Err(TuplePacketError::InvalidLength(4)));
    assert_eq!(TuplePacket::deserialize(&[1, 2, 3, 4]), Err(TuplePacketError::InvalidLength(4)));
    assert!(TuplePacket::deserialize(&[1, 2, 3, 4, 5]).is_ok());
}

#[test]
fn body_that_is_no_tuple_is_a_tuple_parse_error() {
    assert_eq!(
        TuplePacket::deserialize(&[0, 0, 0, 1, b'x', b'y', 9]),
        Err(TuplePacketError::TupleParseError(TupleParseError::NameError))
    );
    assert_eq!(
        TuplePacket::deserialize(&[0, 0, 0, 1, b'x', 0, 9]),
        Err(TuplePacketError::TupleParseError(TupleParseError::InvalidFormat))
    );
}
