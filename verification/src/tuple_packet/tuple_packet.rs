//! The packet: request type, flags, correlation number, an optional tuple
//! and a checksum.
//!
//! On the wire: one byte with the request type in its high three bits and
//! the flags in its low five, the number as three big-endian bytes, the
//! binary form of the tuple if there is one, and the checksum byte.

use crate::tuple::tuple::{Tuple, TupleParseError, TupleView};
use crate::tuple::wire::{
    append_bytes, decode_tuple, lemma_decode_encode, lemma_encode_decode, lemma_encode_len,
};
use crate::tuple_packet::consts::{TS_MAX_PACKET_SIZE, TS_NUM_LIMIT, TS_REQ_EMPTY};
use crate::util::{take_first_n_const, take_range, Serializable};
use vstd::arithmetic::div_mod::lemma_fundamental_div_mod_converse;
use vstd::prelude::*;

verus! {

/// The number of set bits in the binary notation of `n`.
pub open spec fn bit_count(n: nat) -> nat
    decreases n,
{
    if n == 0 {
        0
    } else {
        n % 2 + bit_count(n / 2)
    }
}

/// The number of set bits in all of `bytes`.
pub open spec fn bit_count_sum(bytes: Seq<u8>) -> nat
    decreases bytes.len(),
{
    if bytes.len() == 0 {
        0
    } else {
        bit_count_sum(bytes.drop_last()) + bit_count(bytes.last() as nat)
    }
}

/// The three bytes of the low 24 bits of `n`, most significant first.
pub open spec fn num_bytes(n: u32) -> Seq<u8> {
    seq![(n / 0x1_0000 % 0x100) as u8, (n / 0x100 % 0x100) as u8, (n % 0x100) as u8]
}

/// The number whose big-endian bytes are the first three of `b`.
pub open spec fn num_value(b: Seq<u8>) -> u32
    recommends
        b.len() >= 3,
{
    (b[0] * 0x1_0000 + b[1] * 0x100 + b[2]) as u32
}

/// A packet. `checksum` is `None` until the packet is built or received.
#[derive(Clone, Debug, PartialEq, Eq)]
pub struct TuplePacket {
    pub req_type: u8,
    pub flags: u8,
    pub num: u32,
    pub tuple: Option<Tuple>,
    pub checksum: Option<u8>,
}

/// What a packet is, mathematically.
pub struct PacketView {
    pub req_type: u8,
    pub flags: u8,
    pub num: u32,
    pub tuple: Option<TupleView>,
    pub checksum: Option<u8>,
}

impl View for TuplePacket {
    type V = PacketView;

    open spec fn view(&self) -> PacketView {
        PacketView {
            req_type: self.req_type,
            flags: self.flags,
            num: self.num,
            tuple: match self.tuple {
                Some(t) => Some(t@),
                None => None,
            },
            checksum: self.checksum,
        }
    }
}

/// Why bytes are no packet.
#[derive(Clone, Copy, Debug, PartialEq, Eq, Structural)]
pub enum TuplePacketError {
    InvalidLength(usize),
    TupleParseError(TupleParseError),
}

impl PacketView {
    /// The request type fits three bits, the flags five, the number 24, and
    /// the tuple, if any, is well formed.
    pub open spec fn wf(self) -> bool {
        &&& self.req_type < 8
        &&& self.flags < 32
        &&& self.num < 0x100_0000
        &&& self.tuple is Some ==> self.tuple->0.wf()
    }

    /// The binary form of the tuple, or no byte where there is no tuple.
    pub open spec fn body(self) -> Seq<u8> {
        match self.tuple {
            Some(t) => t.encode(),
            None => Seq::empty(),
        }
    }

    /// The checksum: the set bits of request type, flags, number and body,
    /// counted, modulo 256.
    pub open spec fn checksum_value(self) -> u8 {
        ((bit_count(self.req_type as nat) + bit_count(self.flags as nat) + bit_count(
            self.num as nat,
        ) + bit_count_sum(self.body())) % 256) as u8
    }

    /// The packet with its checksum computed and stored.
    pub open spec fn sealed(self) -> PacketView {
        PacketView { checksum: Some(self.checksum_value()), ..self }
    }

    /// The wire form. Bits of request type, flags and number beyond their
    /// widths do not reach the wire.
    pub open spec fn encode(self) -> Seq<u8> {
        seq![(self.req_type % 8 * 32 + self.flags % 32) as u8] + num_bytes(self.num) + self.body()
            + seq![self.checksum_value()]
    }
}

/// The packet that `bytes` is the wire form of.
///
/// `InvalidLength` where there are fewer than five bytes: with 0 for no byte
/// at all, else with 4, the length of the header. `TupleParseError` where
/// the body is not empty and is not a tuple.
pub open spec fn decode_packet(bytes: Seq<u8>) -> Result<PacketView, TuplePacketError> {
    if bytes.len() == 0 {
        Err(TuplePacketError::InvalidLength(0))
    } else if bytes.len() < 5 {
        Err(TuplePacketError::InvalidLength(4))
    } else {
        let body = bytes.subrange(4, bytes.len() - 1);
        let header = PacketView {
            req_type: bytes[0] / 32,
            flags: bytes[0] % 32,
            num: num_value(bytes.subrange(1, 4)),
            tuple: None,
            checksum: Some(bytes[bytes.len() - 1]),
        };
        if body.len() == 0 {
            Ok(header)
        } else {
            match decode_tuple(body) {
                Ok(t) => Ok(PacketView { tuple: Some(t), ..header }),
                Err(e) => Err(TuplePacketError::TupleParseError(e)),
            }
        }
    }
}

/// Decoding inverts encoding: the wire form of a well-formed packet decodes
/// to that packet, number included, with the computed checksum in place.
pub proof fn lemma_decode_encode_packet(p: PacketView)
    requires
        p.wf(),
    ensures
        decode_packet(p.encode()) == Ok::<PacketView, TuplePacketError>(p.sealed()),
{
    let bytes = p.encode();
    let body = p.body();
    assert(bytes.len() == 5 + body.len());
    assert(bytes.subrange(4, bytes.len() - 1) =~= body);
    assert(bytes.subrange(1, 4) =~= num_bytes(p.num));
    assert(num_value(num_bytes(p.num)) == p.num);
    assert(bytes[0] / 32 == p.req_type);
    assert(bytes[0] % 32 == p.flags);
    assert(bytes[bytes.len() - 1] == p.checksum_value());
    match p.tuple {
        Some(t) => {
            lemma_decode_encode(t);
            assert(body.len() >= 5);
        },
        None => {},
    }
}

/// The wire form of a well-formed packet is no longer than the longest.
pub proof fn lemma_packet_len(p: PacketView)
    requires
        p.wf(),
    ensures
        5 <= p.encode().len() <= TS_MAX_PACKET_SIZE,
{
    if p.tuple is Some {
        lemma_encode_len(p.tuple->0);
    }
}

/// Only wire forms read as packets: what reads as a packet is well formed,
/// and where the checksum it carries is the checksum of its parts, the
/// bytes are its wire form.
pub proof fn lemma_encode_decode_packet(bytes: Seq<u8>)
    requires
        decode_packet(bytes) is Ok,
    ensures
        decode_packet(bytes)->Ok_0.wf(),
        decode_packet(bytes)->Ok_0.checksum == Some(decode_packet(bytes)->Ok_0.checksum_value())
            ==> decode_packet(bytes)->Ok_0.encode() == bytes,
{
    let p = decode_packet(bytes)->Ok_0;
    let body = bytes.subrange(4, bytes.len() - 1);
    if body.len() > 0 {
        lemma_encode_decode(body);
    }
    assert(p.body() == body);
    let n = bytes.subrange(1, 4);
    let value = n[0] * 0x1_0000 + n[1] * 0x100 + n[2];
    lemma_fundamental_div_mod_converse(value, 0x100, n[0] * 0x100 + n[1], n[2] as int);
    lemma_fundamental_div_mod_converse(value, 0x1_0000, n[0] as int, n[1] * 0x100 + n[2]);
    lemma_fundamental_div_mod_converse(n[0] * 0x100 + n[1], 0x100, n[0] as int, n[1] as int);
    assert(num_bytes(p.num) =~= n);
    if p.checksum == Some(p.checksum_value()) {
        assert(p.encode() =~= bytes);
    }
}

/// `rand::random` for `u32`: some number. Nothing is known of it, and two
/// calls may differ. It panics where the system has no source of randomness.
#[verifier::external_body]
fn random_u32() -> u32 {
    rand::random::<u32>()
}

/// Reducing a summand modulo 256 does not change a sum modulo 256.
proof fn lemma_add_mod(a: int, b: int)
    ensures
        (a % 256 + b) % 256 == (a + b) % 256,
{
}

/// Adds the number of set bits of `n` to `acc`, modulo 256.
pub fn add_bits(acc: u8, n: u32) -> (r: u8)
    ensures
        r == (acc + bit_count(n as nat)) % 256,
{
    let mut x: u32 = n;
    let mut c: u8 = acc;
    while x > 0
        invariant
            (c + bit_count(x as nat)) % 256 == (acc + bit_count(n as nat)) % 256,
        decreases x,
    {
        proof {
            lemma_add_mod(c + x % 2, bit_count((x / 2) as nat) as int);
        }
        c = ((c as u32 + x % 2) % 256) as u8;
        x = x / 2;
    }
    c
}

/// Adds the number of set bits of `bytes` to `acc`, modulo 256.
pub(crate) fn add_bits_of_bytes(acc: u8, bytes: &[u8]) -> (r: u8)
    ensures
        r == (acc + bit_count_sum(bytes@)) % 256,
{
    let mut c: u8 = acc;
    let mut i: usize = 0;
    while i < bytes.len()
        invariant
            i <= bytes@.len(),
            c == (acc + bit_count_sum(bytes@.take(i as int))) % 256,
        decreases bytes@.len() - i,
    {
        proof {
            let next = bytes@.take(i + 1);
            assert(next.drop_last() =~= bytes@.take(i as int));
            assert(next.last() == bytes@[i as int]);
            lemma_add_mod(
                acc + bit_count_sum(bytes@.take(i as int)),
                bit_count(bytes@[i as int] as nat) as int,
            );
        }
        c = add_bits(c, bytes[i] as u32);
        i += 1;
    }
    assert(bytes@.take(i as int) =~= bytes@);
    c
}

impl TuplePacket {
    /// The correlation number that the number `random` gives: its low 24 bits.
    pub fn num_from(random: u32) -> (n: u32)
        ensures
            n == random % 0x100_0000,
    {
        random % TS_NUM_LIMIT
    }

    /// A fresh correlation number: what [`TuplePacket::num_from`] makes of a
    /// random number. Which number it is, nothing says.
    pub(crate) fn packet_uuid() -> (n: u32)
        ensures
            n < 0x100_0000,
    {
        Self::num_from(random_u32())
    }

    /// The number after this packet's, modulo 2^24.
    pub fn increment_num(&self) -> (n: u32)
        ensures
            n == (self.num + 1) % 0x100_0000,
    {
        ((self.num as u64 + 1) % 0x100_0000) as u32
    }

    /// The checksum that this packet should carry.
    pub fn calculate_checksum(&self) -> (c: u8)
        ensures
            c == self@.checksum_value(),
    {
        let ghost r = bit_count(self.req_type as nat) as int;
        let ghost f = bit_count(self.flags as nat) as int;
        let ghost n = bit_count(self.num as nat) as int;
        let c1 = add_bits(0, self.req_type as u32);
        let c2 = add_bits(c1, self.flags as u32);
        let c3 = add_bits(c2, self.num);
        proof {
            lemma_add_mod(r, f);
            lemma_add_mod(r + f, n);
            assert(c3 == (r + f + n) % 256);
        }
        match &self.tuple {
            Some(t) => {
                let body = t.serialize();
                proof {
                    lemma_add_mod(r + f + n, bit_count_sum(body@) as int);
                }
                add_bits_of_bytes(c3, body.as_slice())
            },
            None => {
                assert(bit_count_sum(Seq::<u8>::empty()) == 0);
                c3
            },
        }
    }

    /// The packet without a tuple that has the number `num`: request type
    /// `EMPTY`, no flag, no checksum yet.
    pub fn empty_with_num(num: u32) -> (p: TuplePacket)
        ensures
            p@ == (PacketView {
                req_type: TS_REQ_EMPTY,
                flags: 0,
                num,
                tuple: None,
                checksum: None,
            }),
    {
        TuplePacket { req_type: TS_REQ_EMPTY, flags: 0, num, tuple: None, checksum: None }
    }

    /// A packet without a tuple: request type `EMPTY`, no flag, a fresh
    /// random number, no checksum yet. It is what
    /// [`TuplePacket::empty_with_num`] gives for that number.
    pub fn empty() -> (p: TuplePacket)
        ensures
            p@.req_type == TS_REQ_EMPTY,
            p@.flags == 0,
            p@.num < 0x100_0000,
            p@.tuple is None,
            p@.checksum is None,
    {
        Self::empty_with_num(Self::packet_uuid())
    }

    /// The packet that carries `tuple` and has the number `num`, with no
    /// checksum yet. Without `flags`, no flag is set.
    pub fn new_with_num(tuple: Tuple, req_type: u8, flags: Option<u8>, num: u32) -> (p:
        TuplePacket)
        ensures
            p@ == (PacketView {
                req_type,
                flags: match flags {
                    Some(f) => f,
                    None => 0,
                },
                num,
                tuple: Some(tuple@),
                checksum: None,
            }),
    {
        TuplePacket {
            req_type,
            flags: match flags {
                Some(f) => f,
                None => 0,
            },
            num,
            tuple: Some(tuple),
            checksum: None,
        }
    }

    /// A packet that carries `tuple`, with a fresh random number and no
    /// checksum yet. Without `flags`, no flag is set.
    pub fn new(tuple: Tuple, req_type: u8, flags: Option<u8>) -> (p: TuplePacket)
        ensures
            p@.req_type == req_type,
            p@.flags == (match flags {
                Some(f) => f,
                None => 0,
            }),
            p@.num < 0x100_0000,
            p@.tuple == Some(tuple@),
            p@.checksum is None,
    {
        Self::new_with_num(tuple, req_type, flags, Self::packet_uuid())
    }
}

impl Default for TuplePacket {
    /// The same as [`TuplePacket::empty`].
    fn default() -> (p: TuplePacket)
        ensures
            p@.req_type == TS_REQ_EMPTY,
            p@.flags == 0,
            p@.num < 0x100_0000,
            p@.tuple is None,
            p@.checksum is None,
    {
        TuplePacket::empty()
    }
}

impl Serializable for TuplePacket {
    type Error = TuplePacketError;

    open spec fn wire(&self) -> Seq<u8> {
        self@.encode()
    }

    /// The wire form, with the checksum computed afresh.
    fn serialize(&self) -> (bytes: Vec<u8>) {
        let mut res: Vec<u8> = Vec::new();
        let r = self.req_type;
        let f = self.flags;
        let first: u8 = r << 5u8 | (f & 0x1f);
        assert(first == (r % 8 * 32 + f % 32) as u8) by (bit_vector)
            requires
                first == r << 5u8 | (f & 0x1f),
        ;
        res.push(first);
        let n = self.num;
        res.push((n / 0x1_0000 % 0x100) as u8);
        res.push((n / 0x100 % 0x100) as u8);
        res.push((n % 0x100) as u8);
        if let Some(t) = &self.tuple {
            let body = t.serialize();
            append_bytes(&mut res, body.as_slice());
        }
        res.push(self.calculate_checksum());
        assert(res@ =~= self@.encode());
        res
    }

    /// The packet that `bytes` is the wire form of, or why it is none. The
    /// packet carries the checksum that was received, whatever it is.
    fn deserialize(bytes: &[u8]) -> (r: Result<TuplePacket, TuplePacketError>)
        ensures
            decode_packet(bytes@) == (match r {
                Ok(p) => Ok::<PacketView, TuplePacketError>(p@),
                Err(e) => Err::<PacketView, TuplePacketError>(e),
            }),
            r is Ok ==> r->Ok_0@.wf(),
    {
        proof {
            if decode_packet(bytes@) is Ok {
                lemma_encode_decode_packet(bytes@);
            }
        }
        if bytes.len() == 0 {
            return Err(TuplePacketError::InvalidLength(bytes.len()));
        }
        let head: [u8; 4] = match take_first_n_const::<u8, 4>(bytes) {
            Ok(h) => h,
            Err(e) => {
                return Err(TuplePacketError::InvalidLength(e.0));
            },
        };
        let body = match take_range(bytes, 4..bytes.len() - 1) {
            Ok(b) => b,
            Err(_) => {
                return Err(TuplePacketError::InvalidLength(bytes.len()));
            },
        };
        let first = head[0];
        let req_type: u8 = (first >> 5u8) & 0b0000_0111;
        let flags: u8 = first & 0b0001_1111;
        assert(req_type == first / 32 && flags == first % 32) by (bit_vector)
            requires
                req_type == (first >> 5u8) & 0b0000_0111,
                flags == first & 0b0001_1111,
        ;
        let num: u32 = head[1] as u32 * 0x1_0000 + head[2] as u32 * 0x100 + head[3] as u32;
        assert(head@ == bytes@.subrange(0, 4));
        assert(bytes@.subrange(1, 4) =~= head@.subrange(1, 4));
        let checksum = Some(bytes[bytes.len() - 1]);
        let tuple = if body.len() == 0 {
            None
        } else {
            match Tuple::deserialize(body) {
                Ok(t) => Some(t),
                Err(e) => {
                    return Err(TuplePacketError::TupleParseError(e));
                },
            }
        };
        Ok(TuplePacket { req_type, flags, num, tuple, checksum })
    }
}

/// Builds a packet part by part.
#[derive(Clone, Debug, PartialEq, Eq)]
pub struct TuplePacketBuilder {
    tuple_packet: TuplePacket,
}

impl View for TuplePacketBuilder {
    type V = PacketView;

    closed spec fn view(&self) -> PacketView {
        self.tuple_packet@
    }
}

impl TuplePacketBuilder {
    /// A builder that holds the defaults: request type `EMPTY`, no flag, no
    /// tuple, and a fresh random number, which [`TuplePacketBuilder::num`]
    /// replaces.
    pub fn new() -> (b: TuplePacketBuilder)
        ensures
            b@.req_type == TS_REQ_EMPTY,
            b@.flags == 0,
            b@.num < 0x100_0000,
            b@.tuple is None,
            b@.checksum is None,
    {
        TuplePacketBuilder { tuple_packet: TuplePacket::default() }
    }

    /// Sets the request type.
    pub fn req_type(self, req_type: u8) -> (b: TuplePacketBuilder)
        ensures
            b@ == (PacketView { req_type, ..self@ }),
    {
        let mut tuple_packet = self.tuple_packet;
        tuple_packet.req_type = req_type;
        TuplePacketBuilder { tuple_packet }
    }

    /// Sets the flags.
    pub fn flags(self, flags: u8) -> (b: TuplePacketBuilder)
        ensures
            b@ == (PacketView { flags, ..self@ }),
    {
        let mut tuple_packet = self.tuple_packet;
        tuple_packet.flags = flags;
        TuplePacketBuilder { tuple_packet }
    }

    /// Sets the correlation number.
    pub fn num(self, num: u32) -> (b: TuplePacketBuilder)
        ensures
            b@ == (PacketView { num, ..self@ }),
    {
        let mut tuple_packet = self.tuple_packet;
        tuple_packet.num = num;
        TuplePacketBuilder { tuple_packet }
    }

    /// Sets the tuple.
    pub fn tuple(self, tuple: Tuple) -> (b: TuplePacketBuilder)
        ensures
            b@ == (PacketView { tuple: Some(tuple@), ..self@ }),
    {
        let mut tuple_packet = self.tuple_packet;
        tuple_packet.tuple = Some(tuple);
        TuplePacketBuilder { tuple_packet }
    }

    /// The packet, with its checksum computed and stored.
    pub fn build(self) -> (p: TuplePacket)
        ensures
            p@ == self@.sealed(),
    {
        let mut tuple_packet = self.tuple_packet;
        tuple_packet.checksum = Some(tuple_packet.calculate_checksum());
        tuple_packet
    }
}

} // verus!
