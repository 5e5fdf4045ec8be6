//! The binary form of a tuple as a function on bytes.
//!
//! A name, a zero byte, the field count as four big-endian bytes, then one
//! record per field: a tag byte and, where the field holds a value, four
//! big-endian payload bytes.

use crate::tuple::consts::{
    TUPLE_MAX_SIZE, TUPLE_FIELD_OCCUPIED_NO, TUPLE_FIELD_OCCUPIED_SHIFT, TUPLE_FIELD_OCCUPIED_YES,
    TUPLE_FIELD_TYPE_SHIFT, TUPLE_TYPE_FLOAT, TUPLE_TYPE_INT, TUPLE_TYPE_UNDEFINED,
};
use crate::tuple::tuple::{TupleField, TupleParseError, TupleView};
use crate::util::{index_of, lemma_index_of, lemma_index_of_is};
use vstd::arithmetic::div_mod::{lemma_fundamental_div_mod, lemma_fundamental_div_mod_converse};
use vstd::prelude::*;
use vstd::utf8::*;

verus! {

/// The four bytes of `n`, most significant first.
pub open spec fn be_bytes(n: u32) -> Seq<u8> {
    seq![
        (n / 0x100_0000) as u8,
        (n / 0x1_0000 % 0x100) as u8,
        (n / 0x100 % 0x100) as u8,
        (n % 0x100) as u8,
    ]
}

/// The number whose big-endian bytes are the first four of `b`.
pub open spec fn be_value(b: Seq<u8>) -> u32
    recommends
        b.len() >= 4,
{
    (b[0] * 0x100_0000 + b[1] * 0x1_0000 + b[2] * 0x100 + b[3]) as u32
}

/// The two's complement bit pattern of `v`.
pub open spec fn int_bits(v: i32) -> u32 {
    if v >= 0 {
        v as u32
    } else {
        (v + 0x1_0000_0000) as u32
    }
}

/// The signed number with the two's complement bit pattern `b`.
pub open spec fn bits_int(b: u32) -> i32 {
    if b < 0x8000_0000 {
        b as i32
    } else {
        (b - 0x1_0000_0000) as i32
    }
}

/// The tag byte of a field: the occupied flag in bit 7, the type in bits 6 to 4.
pub open spec fn field_tag(f: TupleField) -> u8 {
    match f {
        TupleField::Int(Some(_)) => 0x90,
        TupleField::Int(None) => 0x10,
        TupleField::Float(Some(_)) => 0xA0,
        TupleField::Float(None) => 0x20,
        TupleField::Undefined => 0x00,
    }
}

/// The payload that follows the tag byte: four bytes for a value, none for "any".
pub open spec fn field_payload(f: TupleField) -> Seq<u8> {
    match f {
        TupleField::Int(Some(v)) => be_bytes(int_bits(v)),
        TupleField::Float(Some(b)) => be_bytes(b),
        _ => Seq::empty(),
    }
}

/// One field record.
pub open spec fn field_bytes(f: TupleField) -> Seq<u8> {
    seq![field_tag(f)] + field_payload(f)
}

/// The records of `fs`, one after the other.
pub open spec fn encode_fields(fs: Seq<TupleField>) -> Seq<u8>
    decreases fs.len(),
{
    if fs.len() == 0 {
        Seq::empty()
    } else {
        field_bytes(fs[0]) + encode_fields(fs.drop_first())
    }
}

impl TupleView {
    /// The UTF-8 bytes of the name.
    pub open spec fn name_bytes(self) -> Seq<u8> {
        encode_utf8(self.name)
    }

    /// A name of at most 31 bytes without a zero byte, and at most 255 fields.
    pub open spec fn wf(self) -> bool {
        &&& self.name_bytes().len() <= 31
        &&& forall|i: int| 0 <= i < self.name_bytes().len() ==> self.name_bytes()[i] != 0
        &&& self.fields.len() <= 255
    }

    /// The binary form. The count field holds the number of fields modulo 2^32.
    pub open spec fn encode(self) -> Seq<u8> {
        self.name_bytes() + seq![0u8] + be_bytes((self.fields.len() % 0x1_0000_0000) as u32)
            + encode_fields(self.fields)
    }
}

/// The field that the record at the head of `bytes` holds, and the record's
/// length; `None` where the tag byte is none of the five that the layout
/// knows, or the payload is cut short.
pub open spec fn decode_field(bytes: Seq<u8>) -> Option<(TupleField, int)> {
    if bytes.len() == 0 {
        None
    } else if bytes[0] == 0x00 {
        Some((TupleField::Undefined, 1))
    } else if bytes[0] == 0x10 {
        Some((TupleField::Int(None), 1))
    } else if bytes[0] == 0x20 {
        Some((TupleField::Float(None), 1))
    } else if bytes[0] == 0x90 && bytes.len() >= 5 {
        Some((TupleField::Int(Some(bits_int(be_value(bytes.subrange(1, 5))))), 5))
    } else if bytes[0] == 0xA0 && bytes.len() >= 5 {
        Some((TupleField::Float(Some(be_value(bytes.subrange(1, 5)))), 5))
    } else {
        None
    }
}

/// The fields whose records fill `bytes` exactly.
pub open spec fn decode_fields(bytes: Seq<u8>) -> Option<Seq<TupleField>>
    decreases bytes.len(),
{
    if bytes.len() == 0 {
        Some(Seq::empty())
    } else {
        match decode_field(bytes) {
            None => None,
            Some((f, n)) => match decode_fields(bytes.skip(n)) {
                None => None,
                Some(rest) => Some(seq![f] + rest),
            },
        }
    }
}

/// The position of the first zero byte, or the length where there is none.
pub open spec fn name_end(bytes: Seq<u8>) -> int {
    index_of(bytes, 0)
}

/// The tuple that `bytes` is the binary form of.
///
/// `NameError` where no zero byte ends the name within 32 bytes or the name
/// is not UTF-8; `InvalidFormat` where what follows the name is not a count
/// of at most 255 and exactly that many records.
pub open spec fn decode_tuple(bytes: Seq<u8>) -> Result<TupleView, TupleParseError> {
    let z = name_end(bytes);
    if z > 31 || z >= bytes.len() || !valid_utf8(bytes.take(z)) {
        Err(TupleParseError::NameError)
    } else if bytes.len() < z + 5 {
        Err(TupleParseError::InvalidFormat)
    } else {
        let count = be_value(bytes.subrange(z + 1, z + 5));
        match decode_fields(bytes.skip(z + 5)) {
            Some(fs) => if fs.len() == count && count <= 255 {
                Ok(TupleView { name: decode_utf8(bytes.take(z)), fields: fs })
            } else {
                Err(TupleParseError::InvalidFormat)
            },
            None => Err(TupleParseError::InvalidFormat),
        }
    }
}

/// Four big-endian bytes and the number they spell determine each other.
pub proof fn lemma_be_round_trip(n: u32)
    ensures
        be_bytes(n).len() == 4,
        be_value(be_bytes(n)) == n,
{
    let x = n as int;
    let q1 = x / 0x100;
    let q2 = q1 / 0x100;
    let q3 = q2 / 0x100;
    lemma_fundamental_div_mod(x, 0x100);
    lemma_fundamental_div_mod(q1, 0x100);
    lemma_fundamental_div_mod(q2, 0x100);
    assert(q2 == x / 0x1_0000);
    assert(q3 == x / 0x100_0000);
    assert(q3 < 0x100);
    assert(x == q3 * 0x100_0000 + (q2 % 0x100) * 0x1_0000 + (q1 % 0x100) * 0x100 + x % 0x100);
}

/// The first four bytes of `b` are the big-endian bytes of the number they spell.
pub proof fn lemma_be_bytes_of_value(b: Seq<u8>)
    requires
        b.len() == 4,
    ensures
        be_bytes(be_value(b)) == b,
{
    let b0 = b[0] as int;
    let b1 = b[1] as int;
    let b2 = b[2] as int;
    let b3 = b[3] as int;
    let low2 = b2 * 0x100 + b3;
    let low3 = b1 * 0x1_0000 + low2;
    let n = b0 * 0x100_0000 + low3;
    assert(be_value(b) == n);
    lemma_fundamental_div_mod_converse(n, 0x100_0000, b0, low3);
    lemma_fundamental_div_mod_converse(n, 0x1_0000, b0 * 0x100 + b1, low2);
    lemma_fundamental_div_mod_converse(n, 0x100, b0 * 0x1_0000 + b1 * 0x100 + b2, b3);
    lemma_fundamental_div_mod_converse(b0 * 0x100 + b1, 0x100, b0, b1);
    lemma_fundamental_div_mod_converse(b0 * 0x1_0000 + b1 * 0x100 + b2, 0x100, b0 * 0x100 + b1, b2);
    let e = be_bytes(be_value(b));
    assert(e[0] == b[0]);
    assert(e[1] == b[1]);
    assert(e[2] == b[2]);
    assert(e[3] == b[3]);
    assert(e =~= b);
}

/// Signed numbers and their bit patterns determine each other.
pub proof fn lemma_int_bits_round_trip(v: i32, b: u32)
    ensures
        bits_int(int_bits(v)) == v,
        int_bits(bits_int(b)) == b,
{
}

/// A record at the head of a byte string decodes to its field.
pub proof fn lemma_decode_field_bytes(f: TupleField, rest: Seq<u8>)
    ensures
        decode_field(field_bytes(f) + rest) == Some((f, field_bytes(f).len() as int)),
        (field_bytes(f) + rest).skip(field_bytes(f).len() as int) == rest,
{
    let bytes = field_bytes(f) + rest;
    assert(bytes.skip(field_bytes(f).len() as int) =~= rest);
    match f {
        TupleField::Int(Some(v)) => {
            assert(bytes.subrange(1, 5) =~= be_bytes(int_bits(v)));
            lemma_be_round_trip(int_bits(v));
            lemma_int_bits_round_trip(v, 0);
        },
        TupleField::Float(Some(b)) => {
            assert(bytes.subrange(1, 5) =~= be_bytes(b));
            lemma_be_round_trip(b);
        },
        _ => {},
    }
}

/// A decoded record is the record of the decoded field.
pub proof fn lemma_field_bytes_decoded(bytes: Seq<u8>)
    requires
        decode_field(bytes) is Some,
    ensures
        ({
            let (f, n) = decode_field(bytes)->0;
            1 <= n <= bytes.len() && field_bytes(f) == bytes.take(n)
        }),
{
    let (f, n) = decode_field(bytes)->0;
    if n == 5 {
        let p = bytes.subrange(1, 5);
        lemma_be_bytes_of_value(p);
        lemma_int_bits_round_trip(0, be_value(p));
        assert(field_bytes(f) =~= bytes.take(n));
    } else {
        assert(field_bytes(f) =~= bytes.take(n));
    }
}

/// Appending a field appends its record.
pub proof fn lemma_encode_fields_push(fs: Seq<TupleField>, f: TupleField)
    ensures
        encode_fields(fs.push(f)) == encode_fields(fs) + field_bytes(f),
    decreases fs.len(),
{
    if fs.len() == 0 {
        let one = fs.push(f);
        assert(one.drop_first() =~= Seq::<TupleField>::empty());
        assert(encode_fields(one.drop_first()) =~= Seq::<u8>::empty());
        assert(encode_fields(one) == field_bytes(one[0]) + encode_fields(one.drop_first()));
        assert(encode_fields(one) =~= encode_fields(fs) + field_bytes(f));
    } else {
        assert(fs.push(f).drop_first() =~= fs.drop_first().push(f));
        lemma_encode_fields_push(fs.drop_first(), f);
        assert(encode_fields(fs.push(f)) =~= encode_fields(fs) + field_bytes(f));
    }
}

/// Every field takes at least one byte and at most five.
pub proof fn lemma_encode_fields_len(fs: Seq<TupleField>)
    ensures
        fs.len() <= encode_fields(fs).len() <= 5 * fs.len(),
    decreases fs.len(),
{
    if fs.len() > 0 {
        lemma_encode_fields_len(fs.drop_first());
    }
}

/// Decoding the records of a field sequence gives the sequence back.
pub proof fn lemma_decode_encoded_fields(fs: Seq<TupleField>)
    ensures
        decode_fields(encode_fields(fs)) == Some(fs),
    decreases fs.len(),
{
    if fs.len() == 0 {
        assert(fs =~= Seq::empty());
    } else {
        let rest = encode_fields(fs.drop_first());
        lemma_decode_field_bytes(fs[0], rest);
        lemma_decode_encoded_fields(fs.drop_first());
        assert(seq![fs[0]] + fs.drop_first() =~= fs);
    }
}

/// Bytes that decode to a field sequence are that sequence's records.
pub proof fn lemma_encode_decoded_fields(bytes: Seq<u8>)
    requires
        decode_fields(bytes) is Some,
    ensures
        encode_fields(decode_fields(bytes)->0) == bytes,
    decreases bytes.len(),
{
    if bytes.len() > 0 {
        let (f, n) = decode_field(bytes)->0;
        lemma_field_bytes_decoded(bytes);
        lemma_encode_decoded_fields(bytes.skip(n));
        let rest = decode_fields(bytes.skip(n))->0;
        assert((seq![f] + rest).drop_first() =~= rest);
        assert(bytes.take(n) + bytes.skip(n) =~= bytes);
    }
}

/// Decoding inverts encoding: the binary form of a well-formed tuple decodes
/// to that tuple, name by name and field by field.
pub proof fn lemma_decode_encode(t: TupleView)
    requires
        t.wf(),
    ensures
        decode_tuple(t.encode()) == Ok::<TupleView, TupleParseError>(t),
{
    let name = t.name_bytes();
    let bytes = t.encode();
    let z = name.len() as int;
    let count = (t.fields.len() % 0x1_0000_0000) as u32;
    assert(count == t.fields.len());
    assert(bytes.len() == z + 5 + encode_fields(t.fields).len());
    assert forall|i: int| 0 <= i < z implies bytes[i] != 0 by {
        assert(bytes[i] == name[i]);
    }
    assert(bytes[z] == 0);
    lemma_index_of_is(bytes, 0, z);
    assert(bytes.take(z) =~= name);
    encode_utf8_valid_utf8(t.name);
    encode_utf8_decode_utf8(t.name);
    assert(bytes.subrange(z + 1, z + 5) =~= be_bytes(count));
    lemma_be_round_trip(count);
    assert(bytes.skip(z + 5) =~= encode_fields(t.fields));
    lemma_decode_encoded_fields(t.fields);
    let d = decode_tuple(bytes)->Ok_0;
    assert(d.name == t.name);
    assert(d.fields == t.fields);
}

/// Only binary forms decode: what decodes to a tuple is the binary form of
/// that tuple, and the tuple is well formed.
pub proof fn lemma_encode_decode(bytes: Seq<u8>)
    requires
        decode_tuple(bytes) is Ok,
    ensures
        decode_tuple(bytes)->Ok_0.wf(),
        decode_tuple(bytes)->Ok_0.encode() == bytes,
{
    let t = decode_tuple(bytes)->Ok_0;
    let z = name_end(bytes);
    lemma_index_of(bytes, 0);
    let name = bytes.take(z);
    decode_utf8_encode_utf8(name);
    assert(t.name_bytes() == name);
    assert forall|i: int| 0 <= i < t.name_bytes().len() implies t.name_bytes()[i] != 0 by {
        assert(name[i] == bytes[i]);
    }
    let c = bytes.subrange(z + 1, z + 5);
    lemma_be_bytes_of_value(c);
    lemma_encode_decoded_fields(bytes.skip(z + 5));
    assert(t.encode() =~= bytes);
}

/// The binary form of a well-formed tuple is no longer than the longest.
pub proof fn lemma_encode_len(t: TupleView)
    requires
        t.wf(),
    ensures
        5 <= t.encode().len() <= TUPLE_MAX_SIZE,
{
    lemma_encode_fields_len(t.fields);
}

/// Two well-formed tuples with one binary form are one tuple.
pub proof fn lemma_encode_injective(a: TupleView, b: TupleView)
    requires
        a.wf(),
        b.wf(),
        a.encode() == b.encode(),
    ensures
        a == b,
{
    lemma_decode_encode(a);
    lemma_decode_encode(b);
}

/// The tag byte with the given occupied flag and type tag.
pub(crate) fn tag_byte(occupied: u8, kind: u8) -> (t: u8)
    requires
        occupied <= 1,
        kind <= 7,
    ensures
        t == occupied * 128 + kind * 16,
{
    let high: u8 = occupied << TUPLE_FIELD_OCCUPIED_SHIFT;
    let low: u8 = kind << TUPLE_FIELD_TYPE_SHIFT;
    assert(high == occupied * 128) by (bit_vector)
        requires
            occupied <= 1,
            high == occupied << 7usize,
    ;
    assert(low == kind * 16) by (bit_vector)
        requires
            kind <= 7,
            low == kind << 4usize,
    ;
    assert(high | low == high + low) by (bit_vector)
        requires
            high == 0 || high == 128,
            low <= 112,
            low % 16 == 0,
    ;
    high | low
}

/// Appends `src` to `out`.
pub(crate) fn append_bytes(out: &mut Vec<u8>, src: &[u8])
    ensures
        final(out)@ == old(out)@ + src@,
{
    let mut i: usize = 0;
    while i < src.len()
        invariant
            i <= src@.len(),
            out@ == old(out)@ + src@.take(i as int),
        decreases src@.len() - i,
    {
        out.push(src[i]);
        assert(src@.take(i + 1) =~= src@.take(i as int).push(src@[i as int]));
        i += 1;
    }
    assert(src@.take(i as int) =~= src@);
}

/// Appends the four big-endian bytes of `n` to `out`.
pub(crate) fn append_be(out: &mut Vec<u8>, n: u32)
    ensures
        final(out)@ == old(out)@ + be_bytes(n),
{
    out.push((n / 0x100_0000) as u8);
    out.push((n / 0x1_0000 % 0x100) as u8);
    out.push((n / 0x100 % 0x100) as u8);
    out.push((n % 0x100) as u8);
    assert(out@ =~= old(out)@ + be_bytes(n));
}

/// The number that the four bytes at `pos` spell, most significant first.
pub(crate) fn read_be(bytes: &[u8], pos: usize) -> (n: u32)
    requires
        pos + 4 <= bytes@.len(),
    ensures
        n == be_value(bytes@.subrange(pos as int, pos + 4)),
{
    let b0: u32 = bytes[pos] as u32;
    let b1: u32 = bytes[pos + 1] as u32;
    let b2: u32 = bytes[pos + 2] as u32;
    let b3: u32 = bytes[pos + 3] as u32;
    b0 * 0x100_0000 + b1 * 0x1_0000 + b2 * 0x100 + b3
}

/// The two's complement bit pattern of `v`.
pub(crate) fn bits_of_int(v: i32) -> (b: u32)
    ensures
        b == int_bits(v),
{
    if v >= 0 {
        v as u32
    } else {
        (v as i64 + 0x1_0000_0000) as u32
    }
}

/// The signed number with the two's complement bit pattern `b`.
pub(crate) fn int_of_bits(b: u32) -> (v: i32)
    ensures
        v == bits_int(b),
{
    if b < 0x8000_0000 {
        b as i32
    } else {
        (b as i64 - 0x1_0000_0000) as i32
    }
}

/// Appends the record of `f` to `out`.
pub(crate) fn append_field(out: &mut Vec<u8>, f: &TupleField)
    ensures
        final(out)@ == old(out)@ + field_bytes(*f),
{
    match f {
        TupleField::Int(Some(v)) => {
            out.push(tag_byte(TUPLE_FIELD_OCCUPIED_YES, TUPLE_TYPE_INT));
            append_be(out, bits_of_int(*v));
        },
        TupleField::Int(None) => {
            out.push(tag_byte(TUPLE_FIELD_OCCUPIED_NO, TUPLE_TYPE_INT));
        },
        TupleField::Float(Some(b)) => {
            out.push(tag_byte(TUPLE_FIELD_OCCUPIED_YES, TUPLE_TYPE_FLOAT));
            append_be(out, *b);
        },
        TupleField::Float(None) => {
            out.push(tag_byte(TUPLE_FIELD_OCCUPIED_NO, TUPLE_TYPE_FLOAT));
        },
        TupleField::Undefined => {
            out.push(tag_byte(TUPLE_FIELD_OCCUPIED_NO, TUPLE_TYPE_UNDEFINED));
        },
    }
    assert(out@ =~= old(out)@ + field_bytes(*f));
}

/// Reads the record at `pos`: the field and the position after the record,
/// or `None` where no record of the layout starts there.
pub(crate) fn read_field(bytes: &[u8], pos: usize) -> (r: Option<(TupleField, usize)>)
    requires
        pos < bytes@.len(),
    ensures
        match r {
            Some((f, next)) => decode_field(bytes@.skip(pos as int)) == Some((f, next - pos)),
            None => decode_field(bytes@.skip(pos as int)) is None,
        },
{
    let tag = bytes[pos];
    let ghost rest = bytes@.skip(pos as int);
    assert(rest[0] == tag);
    if tag == tag_byte(TUPLE_FIELD_OCCUPIED_NO, TUPLE_TYPE_UNDEFINED) {
        Some((TupleField::Undefined, pos + 1))
    } else if tag == tag_byte(TUPLE_FIELD_OCCUPIED_NO, TUPLE_TYPE_INT) {
        Some((TupleField::Int(None), pos + 1))
    } else if tag == tag_byte(TUPLE_FIELD_OCCUPIED_NO, TUPLE_TYPE_FLOAT) {
        Some((TupleField::Float(None), pos + 1))
    } else if bytes.len() - pos < 5 {
        None
    } else {
        assert(rest.subrange(1, 5) =~= bytes@.subrange(pos + 1, pos + 5));
        if tag == tag_byte(TUPLE_FIELD_OCCUPIED_YES, TUPLE_TYPE_INT) {
            let v = int_of_bits(read_be(bytes, pos + 1));
            Some((TupleField::Int(Some(v)), pos + 5))
        } else if tag == tag_byte(TUPLE_FIELD_OCCUPIED_YES, TUPLE_TYPE_FLOAT) {
            Some((TupleField::Float(Some(read_be(bytes, pos + 1))), pos + 5))
        } else {
            None
        }
    }
}

} // verus!
