use tuple_space::server::queue::{Sent, Server};
use tuple_space::server::{
    check_request, error_reply, handle_datagram, handle_packet, handle_request, Outcome,
    RequestError,
};
use tuple_space::tuple::tuple::{Tuple, TupleBuilder, TupleField};
use tuple_space::tuple_packet::consts::{
    TS_FLAG_ACK, TS_FLAG_ERR, TS_FLAG_HELLO, TS_FLAG_KEEPALIVE, TS_FLAG_RETRANSMIT, TS_REQ_EMPTY,
    TS_REQ_IN, TS_REQ_INP, TS_REQ_OUT, TS_REQ_RD, TS_REQ_RDP,
};
use tuple_space::tuple_packet::tuple_packet::{TuplePacket, TuplePacketBuilder};
use tuple_space::tuple_space::tuple_space::TupleSpace;
use tuple_space::util::Serializable;

fn int_tuple(name: &str, v: Option<i32>) -> Tuple {
    TupleBuilder::new().name(name).field(TupleField::Int(v)).build()
}

fn request(req_type: u8, flags: u8, num: u32, tuple: Option<Tuple>) -> TuplePacket {
    let builder = TuplePacketBuilder::new().req_type(req_type).flags(flags).num(num);
    match tuple {
        Some(t) => builder.tuple(t).build(),
        None => builder.build(),
    }
}

fn reply(outcome: Outcome) -> TuplePacket {
    match outcome {
        Outcome::Reply(p) => p,
        Outcome::Wait(_) => panic!("the request waits"),
    }
}

fn sealed(p: &TuplePacket) -> bool {
    p.checksum == Some(p.calculate_checksum())
}

#[test]
fn hello_handshake() {
    let mut ts = TupleSpace::new();
    let n = 0xFF_FF_FF;
    let hello = request(TS_REQ_EMPTY, TS_FLAG_HELLO, n, Some(Tuple::new("greet")));
    let bytes = hello.serialize();
    let response = reply(handle_datagram(&mut ts, &bytes));
    assert_eq!(response.req_type, TS_REQ_EMPTY);
    assert_eq!(response.flags, TS_FLAG_HELLO | TS_FLAG_ACK);
    assert_eq!(response.num, 0);
    assert_eq!(response.tuple, Some(Tuple::new("\"greet\"")));
    let sent = response.serialize();
    assert!(sent.len() >= 12);
    let bits: u32 = sent[..sent.len() - 1].iter().map(|b| b.count_ones()).sum();
    assert_eq!(sent[sent.len() - 1], (bits % 256) as u8);
    assert_eq!(ts.size(), 0);
}

#[test]
fn hello_without_a_tuple() {
    let mut ts = TupleSpace::new();
    let response = reply(handle_packet(&mut ts, request(TS_REQ_EMPTY, TS_FLAG_HELLO, 7, None)));
    assert_eq!(response.num, 8);
    assert_eq!(response.tuple, Some(Tuple::new("\"\"")));
    assert_eq!(response.serialize().len(), 12);
}

#[test]
fn hello_is_answered_with_the_greeting_it_is_given() {
    let mut ts = TupleSpace::new();
    let hello = request(TS_REQ_EMPTY, TS_FLAG_HELLO, 7, Some(Tuple::new("greet")));
    let response = reply(handle_request(&mut ts, hello, "welcome"));
    assert_eq!(response.tuple, Some(Tuple::new("welcome")));
    assert_eq!(response.flags, TS_FLAG_HELLO | TS_FLAG_ACK);
    assert!(sealed(&response));
}

#[test]
fn greeting_that_is_no_name_is_a_name_error() {
    let mut ts = TupleSpace::new();
    let hello = request(TS_REQ_EMPTY, TS_FLAG_HELLO, 7, None);
    let response = reply(handle_request(&mut ts, hello, "a greeting that is longer than 31 bytes"));
    assert_eq!(response, error_reply(RequestError::NameError, 7));
    let long = request(TS_REQ_EMPTY, TS_FLAG_HELLO, 7, Some(Tuple::new("a name of thirty bytes, no more")));
    let response = reply(handle_packet(&mut ts, long));
    assert_eq!(response.flags, TS_FLAG_ERR);
    assert_eq!(response.tuple, Some(Tuple::new("NameError")));
}

#[test]
fn keepalive_is_acknowledged() {
    let mut ts = TupleSpace::new();
    let response = reply(handle_packet(&mut ts, request(TS_REQ_EMPTY, TS_FLAG_KEEPALIVE, 7, None)));
    assert_eq!(response, request(TS_REQ_EMPTY, TS_FLAG_ACK, 8, None));
}

#[test]
fn out_adds_and_is_acknowledged() {
    let mut ts = TupleSpace::new();
    let out = request(TS_REQ_OUT, 0, 41, Some(int_tuple("k", Some(1))));
    let response = reply(handle_datagram(&mut ts, &out.serialize()));
    assert_eq!(response, request(TS_REQ_EMPTY, TS_FLAG_ACK, 41, None));
    assert_eq!(ts.size(), 1);
    let again = request(TS_REQ_OUT, TS_FLAG_RETRANSMIT, 41, Some(int_tuple("k", Some(1))));
    let response = reply(handle_datagram(&mut ts, &again.serialize()));
    assert_eq!(response, request(TS_REQ_EMPTY, TS_FLAG_ACK, 41, None));
    assert_eq!(ts.size(), 1);
}

#[test]
fn out_of_a_template_is_refused() {
    let mut ts = TupleSpace::new();
    let out = request(TS_REQ_OUT, 0, 41, Some(int_tuple("k", None)));
    let response = reply(handle_packet(&mut ts, out));
    assert_eq!(response, error_reply(RequestError::InvalidFormat, 41));
    assert_eq!(ts.size(), 0);
}

#[test]
fn inp_miss() {
    let mut ts = TupleSpace::new();
    let inp = request(TS_REQ_INP, 0, 99, Some(int_tuple("x", None)));
    let response = reply(handle_datagram(&mut ts, &inp.serialize()));
    assert_eq!(response.req_type, TS_REQ_INP);
    assert_eq!(response.flags, TS_FLAG_ACK | TS_FLAG_ERR);
    assert_eq!(response.num, 99);
    assert_eq!(response.tuple, None);
    assert_eq!(response.serialize().len(), 5);
}

#[test]
fn rdp_miss() {
    let mut ts = TupleSpace::new();
    let rdp = request(TS_REQ_RDP, 0, 99, Some(int_tuple("x", None)));
    let response = reply(handle_packet(&mut ts, rdp));
    assert_eq!(response, request(TS_REQ_RDP, TS_FLAG_ACK | TS_FLAG_ERR, 99, None));
}

#[test]
fn reads_and_takes() {
    let mut ts = TupleSpace::new();
    ts.add(int_tuple("k", Some(1)));
    ts.add(int_tuple("k", Some(2)));
    let template = || Some(int_tuple("k", None));
    let response = reply(handle_packet(&mut ts, request(TS_REQ_RD, 0, 1, template())));
    assert_eq!(response, request(TS_REQ_RD, TS_FLAG_ACK, 1, Some(int_tuple("k", Some(1)))));
    let response = reply(handle_packet(&mut ts, request(TS_REQ_RDP, 0, 2, template())));
    assert_eq!(response, request(TS_REQ_RDP, TS_FLAG_ACK, 2, Some(int_tuple("k", Some(1)))));
    assert_eq!(ts.size(), 2);
    let response = reply(handle_packet(&mut ts, request(TS_REQ_IN, 0, 3, template())));
    assert_eq!(response, request(TS_REQ_IN, TS_FLAG_ACK, 3, Some(int_tuple("k", Some(1)))));
    let response = reply(handle_packet(&mut ts, request(TS_REQ_INP, 0, 4, template())));
    assert_eq!(response, request(TS_REQ_INP, TS_FLAG_ACK, 4, Some(int_tuple("k", Some(2)))));
    assert_eq!(ts.size(), 0);
}

#[test]
fn blocking_requests_wait() {
    let mut ts = TupleSpace::new();
    let rd = request(TS_REQ_RD, 0, 1, Some(int_tuple("k", None)));
    assert!(matches!(handle_packet(&mut ts, rd), Outcome::Wait(_)));
    let take = request(TS_REQ_IN, 0, 2, Some(int_tuple("k", None)));
    let take = match handle_packet(&mut ts, take.clone()) {
        Outcome::Wait(waiting) => {
            assert_eq!(waiting, take);
            waiting
        }
        Outcome::Reply(p) => panic!("{p:?}"),
    };
    ts.add(int_tuple("k", Some(5)));
    let response = reply(handle_packet(&mut ts, take));
    assert_eq!(response, request(TS_REQ_IN, TS_FLAG_ACK, 2, Some(int_tuple("k", Some(5)))));
}

#[test]
fn malformed_body() {
    let mut ts = TupleSpace::new();
    // a body without the zero byte that ends the name
    let response = reply(handle_datagram(&mut ts, &[TS_REQ_OUT << 5, 0, 0, 1, b'x', b'y', 9]));
    assert_eq!(response.req_type, TS_REQ_EMPTY);
    assert_eq!(response.flags, TS_FLAG_ERR);
    assert_eq!(response.tuple, Some(Tuple::new("NameError")));
    assert!(response.num < 1 << 24);
    assert!(sealed(&response));
}

#[test]
fn bytes_that_are_no_packet() {
    let mut ts = TupleSpace::new();
    let response = reply(handle_datagram(&mut ts, &[1, 2]));
    assert_eq!(response.tuple, Some(Tuple::new("InvalidLength")));
    let response = reply(handle_datagram(&mut ts, &[0, 0, 0, 1, b'x', 0, 9]));
    assert_eq!(response.tuple, Some(Tuple::new("InvalidFormat")));
}

#[test]
fn damaged_packet_is_a_checksum_mismatch() {
    let mut ts = TupleSpace::new();
    let mut bytes = request(TS_REQ_OUT, 0, 41, Some(int_tuple("k", Some(1)))).serialize();
    bytes[2] ^= 1;
    let response = reply(handle_datagram(&mut ts, &bytes));
    assert_eq!(response, error_reply(RequestError::ChecksumMismatch, 41 ^ 0x100));
    assert_eq!(ts.size(), 0);
}

#[test]
fn refused_requests() {
    let mut p = request(TS_REQ_EMPTY, TS_FLAG_ERR, 1, None);
    assert_eq!(check_request(&p), Some(RequestError::InvalidFormat));
    p = request(6, 0, 1, None);
    assert_eq!(check_request(&p), Some(RequestError::InvalidFormat));
    p = request(TS_REQ_EMPTY, 0, 1 << 24, None);
    assert_eq!(check_request(&p), Some(RequestError::InvalidFormat));
    p = request(TS_REQ_RD, 0, 1, None);
    assert_eq!(check_request(&p), Some(RequestError::InvalidLength));
    p = request(TS_REQ_RD, 0, 1, Some(Tuple::new("a\0")));
    assert_eq!(check_request(&p), Some(RequestError::InvalidFormat));
    p = TuplePacket::new(Tuple::new("a"), TS_REQ_RD, None);
    assert_eq!(check_request(&p), Some(RequestError::ChecksumMismatch));
    p = request(TS_REQ_RD, TS_FLAG_KEEPALIVE, 1, Some(int_tuple("a", None)));
    assert_eq!(check_request(&p), None);
}

#[test]
fn error_names() {
    assert_eq!(RequestError::InvalidLength.name(), "InvalidLength");
    assert_eq!(RequestError::InvalidFormat.name(), "InvalidFormat");
    assert_eq!(RequestError::NameError.name(), "NameError");
    assert_eq!(RequestError::UnsupportedType.name(), "UnsupportedType");
    assert_eq!(RequestError::ValueParseError.name(), "ValueParseError");
    assert_eq!(RequestError::ChecksumMismatch.name(), "ChecksumMismatch");
    let reply = error_reply(RequestError::ValueParseError, 3);
    assert_eq!((reply.req_type, reply.flags, reply.num), (TS_REQ_EMPTY, TS_FLAG_ERR, 3));
    assert_eq!(reply.tuple, Some(Tuple::new("ValueParseError")));
}

fn datagram(req_type: u8, num: u32, tuple: Tuple) -> Vec<u8> {
    request(req_type, 0, num, Some(tuple)).serialize()
}

fn to_and_packet(sent: &Sent<u8>) -> (u8, TuplePacket) {
    (sent.to, sent.packet.clone())
}

#[test]
fn waiting_requests_are_answered_after_an_out() {
    let mut server: Server<u8> = Server::new();
    assert!(server.receive(1, &datagram(TS_REQ_RD, 10, int_tuple("k", None))).is_empty());
    assert!(server.receive(2, &datagram(TS_REQ_IN, 20, int_tuple("k", None))).is_empty());
    assert!(server.receive(3, &datagram(TS_REQ_IN, 30, int_tuple("k", None))).is_empty());
    assert!(server.receive(4, &datagram(TS_REQ_RD, 40, int_tuple("j", None))).is_empty());
    assert_eq!(server.waiting(), 4);

    let sent = server.receive(9, &datagram(TS_REQ_OUT, 90, int_tuple("k", Some(5))));
    let sent: Vec<(u8, TuplePacket)> = sent.iter().map(to_and_packet).collect();
    assert_eq!(
        sent,
        vec![
            (9, request(TS_REQ_EMPTY, TS_FLAG_ACK, 90, None)),
            (1, request(TS_REQ_RD, TS_FLAG_ACK, 10, Some(int_tuple("k", Some(5))))),
            (2, request(TS_REQ_IN, TS_FLAG_ACK, 20, Some(int_tuple("k", Some(5))))),
        ]
    );
    assert_eq!(server.size(), 0);
    assert_eq!(server.waiting(), 2);

    let sent = server.receive(9, &datagram(TS_REQ_OUT, 91, int_tuple("k", Some(6))));
    let sent: Vec<(u8, TuplePacket)> = sent.iter().map(to_and_packet).collect();
    assert_eq!(
        sent,
        vec![
            (9, request(TS_REQ_EMPTY, TS_FLAG_ACK, 91, None)),
            (3, request(TS_REQ_IN, TS_FLAG_ACK, 30, Some(int_tuple("k", Some(6))))),
        ]
    );
    assert_eq!(server.size(), 0);
    assert_eq!(server.waiting(), 1);
}

#[test]
fn server_answers_at_once_where_it_can() {
    let mut server: Server<u8> = Server::default();
    let sent = server.receive(1, &datagram(TS_REQ_OUT, 1, int_tuple("k", Some(1))));
    assert_eq!(sent.len(), 1);
    let sent = server.receive(2, &datagram(TS_REQ_RD, 2, int_tuple("k", None)));
    assert_eq!(sent.len(), 1);
    assert_eq!((sent[0].to, sent[0].packet.req_type), (2, TS_REQ_RD));
    let sent = server.receive(3, &datagram(TS_REQ_INP, 3, int_tuple("x", None)));
    assert_eq!(sent[0].packet.flags, TS_FLAG_ACK | TS_FLAG_ERR);
    let sent = server.receive(4, &[1, 2, 3]);
    assert_eq!((sent.len(), sent[0].to), (1, 4));
    assert_eq!(sent[0].packet.tuple, Some(Tuple::new("InvalidLength")));
    assert_eq!((server.size(), server.waiting()), (1, 0));
}

#[test]
fn out_of_a_tuple_that_is_held_wakes_nobody() {
    let mut server: Server<u8> = Server::new();
    server.receive(1, &datagram(TS_REQ_OUT, 1, int_tuple("k", Some(1))));
    server.receive(2, &datagram(TS_REQ_RD, 2, int_tuple("j", None)));
    let sent = server.receive(1, &datagram(TS_REQ_OUT, 3, int_tuple("k", Some(1))));
    assert_eq!(sent.len(), 1);
    assert_eq!((server.size(), server.waiting()), (1, 1));
}
