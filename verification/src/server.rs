//! What the server answers: from a request and the tuple space to the
//! response, and to what the space holds afterwards.
//!
//! Receiving and sending are not done here. A request that has to wait for
//! a tuple comes back as [`Outcome::Wait`]; [`queue::Server`] keeps such
//! requests and hands them in again after the next `OUT`.

pub mod queue;

use crate::tuple::tuple::{Tuple, TupleParseError, TupleView};
use crate::tuple_packet::consts::{
    TS_FLAG_ACK, TS_FLAG_ERR, TS_FLAG_HELLO, TS_REQ_EMPTY, TS_REQ_IN, TS_REQ_INP, TS_REQ_OUT,
    TS_REQ_RD, TS_REQ_RDP,
};
use crate::tuple_packet::tuple_packet::{
    decode_packet, lemma_decode_encode_packet, PacketView, TuplePacket, TuplePacketError,
};
use crate::tuple_space::tuple_space::{
    least_match, lemma_least_match, valid_contents, TupleSpace,
};
use crate::util::Serializable;
use vstd::prelude::*;
use vstd::utf8::*;

verus! {

/// Why a request is refused. The name of the kind is the name of the
/// tuple in the response.
#[derive(Clone, Copy, Debug, PartialEq, Eq, Structural)]
pub enum RequestError {
    InvalidLength,
    InvalidFormat,
    NameError,
    UnsupportedType,
    ValueParseError,
    ChecksumMismatch,
}

/// What is done with a request.
#[derive(Debug)]
pub enum Outcome {
    /// This packet is sent back.
    Reply(TuplePacket),
    /// No tuple matches yet: this request, which is the one that was
    /// handed in, waits for the next `OUT`.
    Wait(TuplePacket),
}

/// What an outcome is, mathematically.
pub enum OutcomeView {
    Reply(PacketView),
    Wait,
}

impl View for Outcome {
    type V = OutcomeView;

    open spec fn view(&self) -> OutcomeView {
        match self {
            Outcome::Reply(p) => OutcomeView::Reply(p@),
            Outcome::Wait(_) => OutcomeView::Wait,
        }
    }
}

/// The name of an error kind.
pub open spec fn error_name(kind: RequestError) -> Seq<char> {
    match kind {
        RequestError::InvalidLength => "InvalidLength"@,
        RequestError::InvalidFormat => "InvalidFormat"@,
        RequestError::NameError => "NameError"@,
        RequestError::UnsupportedType => "UnsupportedType"@,
        RequestError::ValueParseError => "ValueParseError"@,
        RequestError::ChecksumMismatch => "ChecksumMismatch"@,
    }
}

/// The kind of error that bytes which are no packet stand for.
pub open spec fn decode_error_kind(e: TuplePacketError) -> RequestError {
    match e {
        TuplePacketError::InvalidLength(_) => RequestError::InvalidLength,
        TuplePacketError::TupleParseError(t) => match t {
            TupleParseError::InvalidFormat => RequestError::InvalidFormat,
            TupleParseError::NameError => RequestError::NameError,
            TupleParseError::UnsupportedType => RequestError::UnsupportedType,
            TupleParseError::ValueParseError => RequestError::ValueParseError,
        },
    }
}

/// Whether the flag `flag`, a power of two, is set in `flags`.
pub open spec fn has_flag(flags: u8, flag: u8) -> bool {
    flags / flag % 2 == 1
}

/// Whether the flag `flag` is set in `flags`.
fn flag_is_set(flags: u8, flag: u8) -> (r: bool)
    requires
        flag == 1 || flag == 2 || flag == 4 || flag == 8 || flag == 16,
    ensures
        r == has_flag(flags, flag),
{
    assert((flags & flag != 0) == (flags / flag % 2 == 1)) by (bit_vector)
        requires
            flag == 1 || flag == 2 || flag == 4 || flag == 8 || flag == 16,
    ;
    (flags & flag) != 0
}

/// The flags in which the two flags `a` and `b` are set, and no other.
fn both_flags(a: u8, b: u8) -> (r: u8)
    requires
        a == 1 || a == 2 || a == 4 || a == 8 || a == 16,
        b == 1 || b == 2 || b == 4 || b == 8 || b == 16,
        a != b,
    ensures
        r == a + b,
{
    assert(a | b == a + b) by (bit_vector)
        requires
            a == 1 || a == 2 || a == 4 || a == 8 || a == 16,
            b == 1 || b == 2 || b == 4 || b == 8 || b == 16,
            a != b,
    ;
    a | b
}

/// The response with the given parts, its checksum in place.
pub open spec fn answer(
    req_type: u8,
    flags: u8,
    num: u32,
    tuple: Option<TupleView>,
) -> PacketView {
    PacketView { req_type, flags, num, tuple, checksum: None }.sealed()
}

/// The response to a request that is refused: `EMPTY` with the flag `ERR`,
/// and a tuple without fields whose name is the name of the error kind.
pub open spec fn error_packet(kind: RequestError, num: u32) -> PacketView {
    answer(
        TS_REQ_EMPTY,
        TS_FLAG_ERR,
        num,
        Some(TupleView { name: error_name(kind), fields: Seq::empty() }),
    )
}

/// Why a request is refused, if it is.
///
/// `InvalidFormat` for the flag `ERR`, for a request type that is none of
/// the six, and for flags or a number beyond their widths;
/// `ChecksumMismatch` where the packet does not carry the checksum of its
/// parts; `InvalidLength` where a request other than `EMPTY` carries no
/// tuple; `InvalidFormat` for a tuple that is not well formed, and for an
/// `OUT` of a tuple in which a field holds no value.
pub open spec fn request_error(p: PacketView) -> Option<RequestError> {
    if has_flag(p.flags, TS_FLAG_ERR) || p.req_type > TS_REQ_RDP || p.flags >= 32 || p.num
        >= 0x100_0000 {
        Some(RequestError::InvalidFormat)
    } else if p.checksum != Some(p.checksum_value()) {
        Some(RequestError::ChecksumMismatch)
    } else if p.req_type != TS_REQ_EMPTY && p.tuple is None {
        Some(RequestError::InvalidLength)
    } else if p.tuple is Some && !p.tuple->0.wf() {
        Some(RequestError::InvalidFormat)
    } else if p.req_type == TS_REQ_OUT && !p.tuple->0.is_concrete() {
        Some(RequestError::InvalidFormat)
    } else {
        None
    }
}

/// The name that the greeting of a `HELLO` request is made from: the name
/// of its tuple, or the empty name where it carries none.
pub open spec fn greeted_name(p: PacketView) -> Seq<char> {
    match p.tuple {
        Some(t) => t.name,
        None => Seq::empty(),
    }
}

/// The response to an `EMPTY` request.
///
/// With the flag `HELLO`: `EMPTY` with `ACK` and `HELLO` and a tuple
/// without fields whose name is `greeting`; where `greeting` is no name
/// for a tuple, the error `NameError`. Without it: `EMPTY` with `ACK` and
/// no tuple. The number is the request's, plus one, modulo 2^24.
pub open spec fn empty_reply(p: PacketView, greeting: Seq<char>) -> PacketView {
    let next = ((p.num + 1) % 0x100_0000) as u32;
    let t = TupleView { name: greeting, fields: Seq::empty() };
    if !has_flag(p.flags, TS_FLAG_HELLO) {
        answer(TS_REQ_EMPTY, TS_FLAG_ACK, next, None)
    } else if t.wf() {
        answer(TS_REQ_EMPTY, (TS_FLAG_ACK + TS_FLAG_HELLO) as u8, next, Some(t))
    } else {
        error_packet(RequestError::NameError, p.num)
    }
}

/// What is done with a request, and what the space holds then.
pub struct Handled {
    pub after: Set<TupleView>,
    pub outcome: OutcomeView,
}

/// What is done with the request `p` on a space that holds `before`.
///
/// * A request that is refused changes nothing and is answered with the
///   error, under the request's number.
/// * `EMPTY` changes nothing and is answered as [`empty_reply`] says.
/// * `OUT` adds the tuple and is answered `EMPTY` with `ACK`.
/// * `RD` and `RDP` find, `IN` and `INP` take, the least match of the
///   template. The answer has the request's type, `ACK`, and the tuple.
///   Where nothing matches, nothing changes: `RD` and `IN` wait, `RDP` and
///   `INP` are answered with `ACK` and `ERR` and no tuple.
///
/// But for `EMPTY`, the answer has the request's number.
pub open spec fn response_of(
    before: Set<TupleView>,
    p: PacketView,
    greeting: Seq<char>,
) -> Handled {
    let template = p.tuple->0;
    let takes = p.req_type == TS_REQ_IN || p.req_type == TS_REQ_INP;
    let waits = p.req_type == TS_REQ_IN || p.req_type == TS_REQ_RD;
    match request_error(p) {
        Some(kind) => Handled {
            after: before,
            outcome: OutcomeView::Reply(error_packet(kind, p.num)),
        },
        None => if p.req_type == TS_REQ_EMPTY {
            Handled { after: before, outcome: OutcomeView::Reply(empty_reply(p, greeting)) }
        } else if p.req_type == TS_REQ_OUT {
            Handled {
                after: before.insert(template),
                outcome: OutcomeView::Reply(answer(TS_REQ_EMPTY, TS_FLAG_ACK, p.num, None)),
            }
        } else {
            match least_match(before, template) {
                Some(m) => Handled {
                    after: if takes {
                        before.remove(m)
                    } else {
                        before
                    },
                    outcome: OutcomeView::Reply(answer(p.req_type, TS_FLAG_ACK, p.num, Some(m))),
                },
                None => Handled {
                    after: before,
                    outcome: if waits {
                        OutcomeView::Wait
                    } else {
                        OutcomeView::Reply(
                            answer(p.req_type, (TS_FLAG_ACK + TS_FLAG_ERR) as u8, p.num, None),
                        )
                    },
                },
            }
        },
    }
}

/// What `{:?}` writes for a text: the text between double quotes, with
/// the characters escaped that Rust escapes in a string literal.
pub uninterp spec fn debug_text(text: Seq<char>) -> Seq<char>;

/// `format!` with `{:?}` on a `str`: the text as `Debug` writes it.
#[verifier::external_body]
fn debug_format(text: &str) -> (r: String)
    ensures
        r@ == debug_text(text@),
{
    format!("{:?}", text)
}

impl RequestError {
    /// The name of the kind.
    pub fn name(&self) -> (r: &'static str)
        ensures
            r@ == error_name(*self),
    {
        match self {
            RequestError::InvalidLength => "InvalidLength",
            RequestError::InvalidFormat => "InvalidFormat",
            RequestError::NameError => "NameError",
            RequestError::UnsupportedType => "UnsupportedType",
            RequestError::ValueParseError => "ValueParseError",
            RequestError::ChecksumMismatch => "ChecksumMismatch",
        }
    }

    /// The kind that bytes which are no packet stand for.
    pub fn of_decoding(e: TuplePacketError) -> (r: RequestError)
        ensures
            r == decode_error_kind(e),
    {
        match e {
            TuplePacketError::InvalidLength(_) => RequestError::InvalidLength,
            TuplePacketError::TupleParseError(t) => match t {
                TupleParseError::InvalidFormat => RequestError::InvalidFormat,
                TupleParseError::NameError => RequestError::NameError,
                TupleParseError::UnsupportedType => RequestError::UnsupportedType,
                TupleParseError::ValueParseError => RequestError::ValueParseError,
            },
        }
    }
}

/// The response with the given parts, its checksum in place.
pub fn make_answer(req_type: u8, flags: u8, num: u32, tuple: Option<Tuple>) -> (p: TuplePacket)
    ensures
        p@ == answer(
            req_type,
            flags,
            num,
            match tuple {
                Some(t) => Some(t@),
                None => None,
            },
        ),
{
    let mut p = TuplePacket { req_type, flags, num, tuple, checksum: None };
    let c = p.calculate_checksum();
    p.checksum = Some(c);
    p
}

/// The response to a request that is refused.
pub fn error_reply(kind: RequestError, num: u32) -> (p: TuplePacket)
    ensures
        p@ == error_packet(kind, num),
{
    make_answer(TS_REQ_EMPTY, TS_FLAG_ERR, num, Some(Tuple::new(kind.name())))
}

/// Why the request is refused, if it is.
pub fn check_request(p: &TuplePacket) -> (r: Option<RequestError>)
    ensures
        r == request_error(p@),
{
    if flag_is_set(p.flags, TS_FLAG_ERR) || p.req_type > TS_REQ_RDP || p.flags >= 32 || p.num
        >= 0x100_0000 {
        return Some(RequestError::InvalidFormat);
    }
    let sum = p.calculate_checksum();
    let sealed = match p.checksum {
        Some(c) => c == sum,
        None => false,
    };
    if !sealed {
        return Some(RequestError::ChecksumMismatch);
    }
    match &p.tuple {
        None => if p.req_type != TS_REQ_EMPTY {
            Some(RequestError::InvalidLength)
        } else {
            None
        },
        Some(t) => if !t.is_valid() {
            Some(RequestError::InvalidFormat)
        } else if p.req_type == TS_REQ_OUT && !t.is_concrete() {
            Some(RequestError::InvalidFormat)
        } else {
            None
        },
    }
}

/// Answers an `EMPTY` request that is not refused.
pub fn answer_empty(p: &TuplePacket, greeting: &str) -> (r: TuplePacket)
    ensures
        r@ == empty_reply(p@, greeting@),
{
    let next = p.increment_num();
    if !flag_is_set(p.flags, TS_FLAG_HELLO) {
        return make_answer(TS_REQ_EMPTY, TS_FLAG_ACK, next, None);
    }
    let t = Tuple::new(greeting);
    if t.is_valid() {
        make_answer(TS_REQ_EMPTY, both_flags(TS_FLAG_ACK, TS_FLAG_HELLO), next, Some(t))
    } else {
        error_reply(RequestError::NameError, p.num)
    }
}

/// Decides what is done with `request`, and does to the space what the
/// request asks for. `greeting` is the name that a `HELLO` is answered with.
pub fn handle_request(space: &mut TupleSpace, request: TuplePacket, greeting: &str) -> (outcome:
    Outcome)
    ensures
        final(space).contents() == response_of(
            old(space).contents(),
            request@,
            greeting@,
        ).after,
        outcome@ == response_of(old(space).contents(), request@, greeting@).outcome,
        match outcome {
            Outcome::Wait(waiting) => waiting@ == request@,
            Outcome::Reply(_) => true,
        },
{
    match check_request(&request) {
        Some(kind) => {
            return Outcome::Reply(error_reply(kind, request.num));
        },
        None => {},
    }
    if request.req_type == TS_REQ_EMPTY {
        return Outcome::Reply(answer_empty(&request, greeting));
    }
    let req_type = request.req_type;
    let flags = request.flags;
    let num = request.num;
    let checksum = request.checksum;
    let template = match request.tuple {
        Some(t) => t,
        None => {
            return Outcome::Reply(error_reply(RequestError::InvalidLength, num));
        },
    };
    if req_type == TS_REQ_OUT {
        space.add(template);
        return Outcome::Reply(make_answer(TS_REQ_EMPTY, TS_FLAG_ACK, num, None));
    }
    let found = if req_type == TS_REQ_IN || req_type == TS_REQ_INP {
        space.take(&template)
    } else {
        space.read(&template)
    };
    match found {
        Some(m) => Outcome::Reply(make_answer(req_type, TS_FLAG_ACK, num, Some(m))),
        None => if req_type == TS_REQ_IN || req_type == TS_REQ_RD {
            Outcome::Wait(TuplePacket { req_type, flags, num, tuple: Some(template), checksum })
        } else {
            Outcome::Reply(make_answer(req_type, both_flags(TS_FLAG_ACK, TS_FLAG_ERR), num, None))
        },
    }
}

/// Decides what is done with `request`; a `HELLO` is answered with the
/// name of the request's tuple as `Debug` writes it.
pub fn handle_packet(space: &mut TupleSpace, request: TuplePacket) -> (outcome: Outcome)
    ensures
        final(space).contents() == response_of(
            old(space).contents(),
            request@,
            debug_text(greeted_name(request@)),
        ).after,
        outcome@ == response_of(
            old(space).contents(),
            request@,
            debug_text(greeted_name(request@)),
        ).outcome,
        match outcome {
            Outcome::Wait(waiting) => waiting@ == request@,
            Outcome::Reply(_) => true,
        },
{
    let greeting = match &request.tuple {
        Some(t) => debug_format(t.name.as_str()),
        None => debug_format(""),
    };
    proof {
        reveal_strlit("");
        assert(""@ =~= Seq::<char>::empty());
    }
    handle_request(space, request, greeting.as_str())
}

/// What is done with the datagram `bytes` that is a packet, on a space
/// that holds `before`.
pub open spec fn response_to(before: Set<TupleView>, bytes: Seq<u8>) -> Handled {
    let p = decode_packet(bytes)->Ok_0;
    response_of(before, p, debug_text(greeted_name(p)))
}

/// Decides what is done with the datagram `bytes`.
///
/// Bytes that are a packet are handled as [`handle_packet`] says. Bytes
/// that are none change nothing, and are answered with the error that
/// stands for why, under a fresh random number.
pub fn handle_datagram(space: &mut TupleSpace, bytes: &[u8]) -> (outcome: Outcome)
    ensures
        match decode_packet(bytes@) {
            Ok(_) => final(space).contents() == response_to(old(space).contents(), bytes@).after
                && outcome@ == response_to(old(space).contents(), bytes@).outcome,
            Err(e) => final(space).contents() == old(space).contents() && exists|num: u32|
                num < 0x100_0000 && outcome@ == OutcomeView::Reply(
                    #[trigger] error_packet(decode_error_kind(e), num),
                ),
        },
        match outcome {
            Outcome::Wait(waiting) => decode_packet(bytes@) == Ok::<PacketView, TuplePacketError>(
                waiting@,
            ),
            Outcome::Reply(_) => true,
        },
{
    match TuplePacket::deserialize(bytes) {
        Ok(request) => handle_packet(space, request),
        Err(e) => {
            let num = TuplePacket::packet_uuid();
            let reply = error_reply(RequestError::of_decoding(e), num);
            assert(reply@ == error_packet(decode_error_kind(e), num));
            Outcome::Reply(reply)
        },
    }
}

/// An `OUT` that comes a second time changes nothing: the space holds the
/// tuple once, and the answer is the same.
pub proof fn lemma_out_twice(s: Set<TupleView>, p: PacketView, greeting: Seq<char>)
    requires
        p.req_type == TS_REQ_OUT,
    ensures
        response_of(response_of(s, p, greeting).after, p, greeting) == response_of(s, p, greeting),
{
    if request_error(p) is None {
        assert(s.insert(p.tuple->0).insert(p.tuple->0) =~= s.insert(p.tuple->0));
    }
}

/// A text of ASCII characters other than the zero character, 31 at most,
/// is a name for a tuple.
pub proof fn lemma_ascii_is_a_name(name: Seq<char>)
    requires
        name.len() <= 31,
        forall|i: int| 0 <= i < name.len() ==> '\0' < #[trigger] name[i] <= '\u{7f}',
    ensures
        (TupleView { name, fields: Seq::empty() }).wf(),
{
    assert(is_ascii_chars(name));
    is_ascii_chars_encode_utf8(name);
    let bytes = encode_utf8(name);
    assert(bytes =~= Seq::new(name.len(), |i: int| name[i] as u8));
    assert forall|i: int| 0 <= i < bytes.len() implies bytes[i] != 0 by {
        assert(bytes[i] == name[i] as u8);
        assert('\0' < name[i] <= '\u{7f}');
    }
}

/// The name of every error kind is a name for a tuple.
pub proof fn lemma_error_name_is_a_name(kind: RequestError)
    ensures
        (TupleView { name: error_name(kind), fields: Seq::empty() }).wf(),
{
    reveal_strlit("InvalidLength");
    reveal_strlit("InvalidFormat");
    reveal_strlit("NameError");
    reveal_strlit("UnsupportedType");
    reveal_strlit("ValueParseError");
    reveal_strlit("ChecksumMismatch");
    lemma_ascii_is_a_name(error_name(kind));
}

/// Every response is a well-formed packet with its checksum in place: from
/// its wire form it reads back as it is.
pub proof fn lemma_reply_reads_back(
    before: Set<TupleView>,
    p: PacketView,
    greeting: Seq<char>,
    reply: PacketView,
)
    requires
        valid_contents(before),
        p.wf(),
        response_of(before, p, greeting).outcome == OutcomeView::Reply(reply),
    ensures
        reply.wf(),
        decode_packet(reply.encode()) == Ok::<PacketView, TuplePacketError>(reply),
{
    lemma_error_name_is_a_name(RequestError::NameError);
    match request_error(p) {
        Some(kind) => {
            lemma_error_name_is_a_name(kind);
        },
        None => {
            if p.req_type != TS_REQ_EMPTY && p.req_type != TS_REQ_OUT {
                lemma_least_match(before, p.tuple->0);
            }
        },
    }
    assert(reply.sealed() == reply);
    lemma_decode_encode_packet(reply);
}

} // verus!
