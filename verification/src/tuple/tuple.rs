//! The tuple value: a name and an ordered sequence of typed fields.

use crate::tuple::wire::{
    append_be, append_bytes, append_field, decode_fields, decode_tuple, encode_fields,
    lemma_encode_decode, lemma_encode_fields_push, name_end, read_be, read_field,
};
use crate::util::{find_byte, lemma_index_of, lemma_index_of_is, Serializable};
use vstd::prelude::*;
use vstd::string::StringSliceAdditionalSpecFns;
use vstd::utf8::*;

verus! {

/// One field of a tuple. `None` inside a typed field is the wildcard "any".
///
/// A float is held as its IEEE-754 single-precision bit pattern.
#[derive(Clone, Copy, Debug, PartialEq, Eq, Structural)]
pub enum TupleField {
    Int(Option<i32>),
    Float(Option<u32>),
    Undefined,
}

/// Why a textual or binary form is not a tuple.
#[derive(Clone, Copy, Debug, PartialEq, Eq, Structural)]
pub enum TupleParseError {
    InvalidFormat,
    NameError,
    UnsupportedType,
    ValueParseError,
}

impl TupleParseError {
    /// What the error says, in words.
    pub open spec fn message_text(self) -> Seq<char> {
        match self {
            TupleParseError::InvalidFormat => "TupleParseError::InvalidFormat: The provided tuple representation has invalid format."@,
            TupleParseError::NameError => "TupleParseError::NameError: The provided tuple representation has invalid name or invalid name length. Max name length: 31"@,
            TupleParseError::UnsupportedType => "TupleParseError::UnsupportedTypename: The provided tuple representation has a field of unsupported type."@,
            TupleParseError::ValueParseError => "TupleParseError::ValueParseError: Error while parsing one of the provided tuple representation fields' value."@,
        }
    }

    /// What the error says, in words.
    pub fn message(&self) -> (text: &'static str)
        ensures
            text@ == self.message_text(),
    {
        match self {
            TupleParseError::InvalidFormat => "TupleParseError::InvalidFormat: The provided tuple representation has invalid format.",
            TupleParseError::NameError => "TupleParseError::NameError: The provided tuple representation has invalid name or invalid name length. Max name length: 31",
            TupleParseError::UnsupportedType => "TupleParseError::UnsupportedTypename: The provided tuple representation has a field of unsupported type.",
            TupleParseError::ValueParseError => "TupleParseError::ValueParseError: Error while parsing one of the provided tuple representation fields' value.",
        }
    }
}

/// A named, ordered sequence of fields.
#[derive(Clone, Debug, PartialEq, Eq)]
pub struct Tuple {
    pub name: String,
    pub fields: Vec<TupleField>,
}

/// What a tuple is, mathematically: the characters of its name and its fields.
pub struct TupleView {
    pub name: Seq<char>,
    pub fields: Seq<TupleField>,
}

impl View for Tuple {
    type V = TupleView;

    open spec fn view(&self) -> TupleView {
        TupleView { name: self.name@, fields: self.fields@ }
    }
}

/// Whether `b` is the bit pattern of a NaN: all exponent bits set, and a
/// mantissa that is not zero.
pub open spec fn is_nan_bits(b: u32) -> bool {
    b / 0x80_0000 % 0x100 == 0xFF && b % 0x80_0000 != 0
}

/// Equality of two float values: the same bit pattern, and no NaN, which
/// equals nothing.
pub open spec fn float_bits_equal(a: u32, b: u32) -> bool {
    a == b && !is_nan_bits(a)
}

/// Whether two fields at one position match: the same kind, a value on at
/// least one side, and equal values where both sides hold one. `Undefined`
/// holds no value, so it matches nothing.
pub open spec fn fields_match(a: TupleField, b: TupleField) -> bool {
    match (a, b) {
        (TupleField::Int(x), TupleField::Int(y)) => (x is Some || y is Some) && (x is Some && y
            is Some ==> x->0 == y->0),
        (TupleField::Float(x), TupleField::Float(y)) => (x is Some || y is Some) && (x is Some
            && y is Some ==> float_bits_equal(x->0, y->0)),
        _ => false,
    }
}

impl TupleField {
    /// Whether the field holds a value, as opposed to "any" or nothing.
    pub open spec fn is_value(self) -> bool {
        match self {
            TupleField::Int(x) => x is Some,
            TupleField::Float(x) => x is Some,
            TupleField::Undefined => false,
        }
    }

    /// Whether the field is the wildcard of its kind.
    pub open spec fn is_any(self) -> bool {
        match self {
            TupleField::Int(x) => x is None,
            TupleField::Float(x) => x is None,
            TupleField::Undefined => false,
        }
    }

    /// Whether the two fields have one kind.
    pub open spec fn same_kind(self, other: TupleField) -> bool {
        match (self, other) {
            (TupleField::Int(_), TupleField::Int(_)) => true,
            (TupleField::Float(_), TupleField::Float(_)) => true,
            (TupleField::Undefined, TupleField::Undefined) => true,
            _ => false,
        }
    }
}

impl TupleView {
    /// Whether this tuple matches `template`: equal names, equal field
    /// counts, and a match at every position.
    pub open spec fn matches(self, template: TupleView) -> bool {
        &&& self.name == template.name
        &&& self.fields.len() == template.fields.len()
        &&& forall|i: int|
            0 <= i < self.fields.len() ==> fields_match(
                #[trigger] self.fields[i],
                template.fields[i],
            )
    }

    /// Whether every field holds a value.
    pub open spec fn is_concrete(self) -> bool {
        forall|i: int| 0 <= i < self.fields.len() ==> (#[trigger] self.fields[i]).is_value()
    }
}

/// Whether the float bit patterns `a` and `b` are equal values.
fn float_bits_eq(a: u32, b: u32) -> (r: bool)
    ensures
        r == float_bits_equal(a, b),
{
    a == b && !(a / 0x80_0000 % 0x100 == 0xFF && a % 0x80_0000 != 0)
}

/// Whether two fields at one position match.
pub fn field_matches(a: &TupleField, b: &TupleField) -> (r: bool)
    ensures
        r == fields_match(*a, *b),
{
    match (a, b) {
        (TupleField::Int(x), TupleField::Int(y)) => match (x, y) {
            (Some(v), Some(w)) => *v == *w,
            (None, None) => false,
            _ => true,
        },
        (TupleField::Float(x), TupleField::Float(y)) => match (x, y) {
            (Some(v), Some(w)) => float_bits_eq(*v, *w),
            (None, None) => false,
            _ => true,
        },
        _ => false,
    }
}

/// `String::from_utf8`: the text that the bytes spell in UTF-8, and `None`
/// exactly where they are not UTF-8.
#[verifier::external_body]
fn text_from_utf8(bytes: Vec<u8>) -> (r: Option<String>)
    ensures
        r is Some <==> valid_utf8(bytes@),
        r is Some ==> r->0@ == decode_utf8(bytes@),
{
    String::from_utf8(bytes).ok()
}

impl Tuple {
    /// A tuple with the given name and no fields.
    pub fn new(name: &str) -> (t: Tuple)
        ensures
            t@ == (TupleView { name: name@, fields: Seq::empty() }),
    {
        Tuple { name: name.to_owned(), fields: Vec::new() }
    }

    /// A tuple with the given name and `size` fields, all `Undefined`.
    pub fn with_capacity(name: &str, size: u8) -> (t: Tuple)
        ensures
            t@ == (TupleView {
                name: name@,
                fields: Seq::new(size as nat, |i: int| TupleField::Undefined),
            }),
    {
        let mut fields: Vec<TupleField> = Vec::new();
        let mut i: u8 = 0;
        while i < size
            invariant
                i <= size,
                fields@.len() == i,
                forall|k: int| 0 <= k < i ==> fields@[k] == TupleField::Undefined,
            decreases size - i,
        {
            fields.push(TupleField::Undefined);
            i += 1;
        }
        assert(fields@ =~= Seq::new(size as nat, |i: int| TupleField::Undefined));
        Tuple { name: name.to_owned(), fields }
    }

    /// The field at `index`, if there is one.
    pub fn get(&self, index: usize) -> (r: Option<TupleField>)
        ensures
            index < self@.fields.len() ==> r == Some(self@.fields[index as int]),
            index >= self@.fields.len() ==> r is None,
    {
        if index < self.fields.len() {
            return Some(self.fields[index]);
        }
        None
    }

    /// Puts `data` in the place of the field at `index`.
    pub fn insert(&mut self, index: usize, data: TupleField)
        requires
            index < old(self)@.fields.len(),
        ensures
            final(self)@ == (TupleView {
                fields: old(self)@.fields.update(index as int, data),
                ..old(self)@
            }),
    {
        self.fields.set(index, data);
    }

    /// The number of fields.
    pub fn len(&self) -> (n: usize)
        ensures
            n == self@.fields.len(),
    {
        self.fields.len()
    }

    /// Whether the tuple has no field.
    pub fn is_empty(&self) -> (b: bool)
        ensures
            b == (self@.fields.len() == 0),
    {
        self.fields.len() == 0
    }

    /// Whether the tuple keeps the limits of the data model: a name of at
    /// most 31 bytes without a zero byte, and at most 255 fields.
    pub fn is_valid(&self) -> (b: bool)
        ensures
            b == self@.wf(),
    {
        let name = self.name.as_str().as_bytes();
        if name.len() > 31 || self.fields.len() > 255 {
            return false;
        }
        let mut i: usize = 0;
        while i < name.len()
            invariant
                i <= name@.len(),
                name@ == self@.name_bytes(),
                forall|k: int| 0 <= k < i ==> name@[k] != 0,
            decreases name@.len() - i,
        {
            if name[i] == 0 {
                return false;
            }
            i += 1;
        }
        true
    }

    /// Whether every field holds a value.
    pub fn is_concrete(&self) -> (b: bool)
        ensures
            b == self@.is_concrete(),
    {
        let mut i: usize = 0;
        while i < self.fields.len()
            invariant
                i <= self.fields@.len(),
                forall|k: int| 0 <= k < i ==> (#[trigger] self.fields@[k]).is_value(),
            decreases self.fields@.len() - i,
        {
            let holds_value = match self.fields[i] {
                TupleField::Int(x) => x.is_some(),
                TupleField::Float(x) => x.is_some(),
                TupleField::Undefined => false,
            };
            if !holds_value {
                assert(!self@.fields[i as int].is_value());
                return false;
            }
            i += 1;
        }
        true
    }

    /// A copy of the tuple.
    pub fn duplicate(&self) -> (t: Tuple)
        ensures
            t@ == self@,
    {
        let mut fields: Vec<TupleField> = Vec::new();
        let mut i: usize = 0;
        while i < self.fields.len()
            invariant
                i <= self.fields@.len(),
                fields@ == self.fields@.take(i as int),
            decreases self.fields@.len() - i,
        {
            fields.push(self.fields[i]);
            assert(self.fields@.take(i + 1) =~= self.fields@.take(i as int).push(
                self.fields@[i as int],
            ));
            i += 1;
        }
        assert(self.fields@.take(i as int) =~= self.fields@);
        Tuple { name: self.name.clone(), fields }
    }

    /// Whether this tuple matches `other`, which is most often a template.
    pub fn matches(&self, other: &Tuple) -> (r: bool)
        ensures
            r == self@.matches(other@),
    {
        if self.len() != other.len() {
            return false;
        }
        if !(self.name == other.name) {
            return false;
        }
        let mut i: usize = 0;
        while i < self.fields.len()
            invariant
                i <= self.fields@.len(),
                self.fields@.len() == other.fields@.len(),
                forall|k: int| 0 <= k < i ==> fields_match(self.fields@[k], other.fields@[k]),
            decreases self.fields@.len() - i,
        {
            if !field_matches(&self.fields[i], &other.fields[i]) {
                return false;
            }
            i += 1;
        }
        true
    }
}

impl Default for Tuple {
    /// The tuple with the empty name and no fields.
    fn default() -> (t: Tuple)
        ensures
            t@ == (TupleView { name: Seq::empty(), fields: Seq::empty() }),
    {
        Tuple { name: String::new(), fields: Vec::new() }
    }
}

impl Serializable for Tuple {
    type Error = TupleParseError;

    open spec fn wire(&self) -> Seq<u8> {
        self@.encode()
    }

    /// The binary form: the name, a zero byte, the field count and the
    /// field records.
    fn serialize(&self) -> (bytes: Vec<u8>) {
        let mut res: Vec<u8> = Vec::new();
        append_bytes(&mut res, self.name.as_str().as_bytes());
        res.push(0);
        let count: u32 = (self.fields.len() as u64 % 0x1_0000_0000) as u32;
        append_be(&mut res, count);
        let ghost head = res@;
        let mut i: usize = 0;
        while i < self.fields.len()
            invariant
                i <= self.fields@.len(),
                res@ == head + encode_fields(self.fields@.take(i as int)),
            decreases self.fields@.len() - i,
        {
            append_field(&mut res, &self.fields[i]);
            proof {
                lemma_encode_fields_push(self.fields@.take(i as int), self.fields@[i as int]);
                assert(self.fields@.take(i + 1) =~= self.fields@.take(i as int).push(
                    self.fields@[i as int],
                ));
            }
            i += 1;
        }
        assert(self.fields@.take(i as int) =~= self.fields@);
        res
    }

    /// The tuple that `bytes` is the binary form of, or why it is none.
    fn deserialize(bytes: &[u8]) -> (r: Result<Tuple, TupleParseError>)
        ensures
            decode_tuple(bytes@) == (match r {
                Ok(t) => Ok::<TupleView, TupleParseError>(t@),
                Err(e) => Err::<TupleView, TupleParseError>(e),
            }),
            r is Ok ==> r->Ok_0@.wf() && r->Ok_0@.encode() == bytes@,
    {
        proof {
            if decode_tuple(bytes@) is Ok {
                lemma_encode_decode(bytes@);
            }
        }
        let window: usize = if bytes.len() < 32 {
            bytes.len()
        } else {
            32
        };
        let z = find_byte(bytes, 0, window, 0);
        proof {
            let head = bytes@.subrange(0, window as int);
            lemma_index_of(head, 0);
            lemma_index_of(bytes@, 0);
            assert forall|i: int| 0 <= i < z implies bytes@[i] != 0 by {
                assert(head[i] == bytes@[i]);
            }
            if z < window {
                assert(head[z as int] == bytes@[z as int]);
                lemma_index_of_is(bytes@, 0, z as int);
            } else if name_end(bytes@) < z {
                assert(bytes@[name_end(bytes@)] == 0);
            }
        }
        if z >= bytes.len() || z > 31 {
            return Err(TupleParseError::NameError);
        }
        let mut name_bytes: Vec<u8> = Vec::new();
        append_bytes(&mut name_bytes, vstd::slice::slice_subrange(bytes, 0, z));
        assert(name_bytes@ =~= bytes@.take(z as int));
        let name = match text_from_utf8(name_bytes) {
            Some(v) => v,
            None => {
                return Err(TupleParseError::NameError);
            },
        };
        if bytes.len() - z < 5 {
            return Err(TupleParseError::InvalidFormat);
        }
        let count = read_be(bytes, z + 1);
        let start: usize = z + 5;
        let mut fields: Vec<TupleField> = Vec::new();
        let mut pos: usize = start;
        while pos < bytes.len()
            invariant
                start <= pos <= bytes@.len(),
                start == z + 5,
                z == name_end(bytes@),
                z <= 31,
                valid_utf8(bytes@.take(z as int)),
                decode_fields(bytes@.skip(start as int)) == match decode_fields(
                    bytes@.skip(pos as int),
                ) {
                    Some(rest) => Some(fields@ + rest),
                    None => None,
                },
            decreases bytes@.len() - pos,
        {
            match read_field(bytes, pos) {
                Some((f, next)) => {
                    proof {
                        let here = bytes@.skip(pos as int);
                        assert(here.skip(next - pos) =~= bytes@.skip(next as int));
                        match decode_fields(bytes@.skip(next as int)) {
                            Some(rest) => {
                                assert(fields@.push(f) + rest =~= fields@ + (seq![f] + rest));
                            },
                            None => {},
                        }
                    }
                    fields.push(f);
                    pos = next;
                },
                None => {
                    return Err(TupleParseError::InvalidFormat);
                },
            }
        }
        assert(fields@ + Seq::<TupleField>::empty() =~= fields@);
        if fields.len() > 255 || fields.len() as u64 != count as u64 {
            return Err(TupleParseError::InvalidFormat);
        }
        Ok(Tuple { name, fields })
    }
}

/// Builds a tuple field by field.
#[derive(Clone, Debug)]
pub struct TupleBuilder {
    tuple: Tuple,
}

impl View for TupleBuilder {
    type V = TupleView;

    closed spec fn view(&self) -> TupleView {
        self.tuple@
    }
}

impl TupleBuilder {
    /// A builder that holds the tuple with the empty name and no fields.
    pub fn new() -> (b: TupleBuilder)
        ensures
            b@ == (TupleView { name: Seq::empty(), fields: Seq::empty() }),
    {
        TupleBuilder { tuple: Tuple::default() }
    }

    /// Gives the tuple the name `name`.
    pub fn name(self, name: &str) -> (b: TupleBuilder)
        ensures
            b@ == (TupleView { name: name@, ..self@ }),
    {
        let mut tuple = self.tuple;
        tuple.name = name.to_owned();
        TupleBuilder { tuple }
    }

    /// Appends `field` to the tuple.
    pub fn field(self, field: TupleField) -> (b: TupleBuilder)
        ensures
            b@ == (TupleView { fields: self@.fields.push(field), ..self@ }),
    {
        let mut tuple = self.tuple;
        tuple.fields.push(field);
        TupleBuilder { tuple }
    }

    /// The tuple that was built.
    pub fn build(self) -> (t: Tuple)
        ensures
            t@ == self@,
    {
        self.tuple
    }
}

impl Default for TupleBuilder {
    fn default() -> (b: TupleBuilder)
        ensures
            b@ == (TupleView { name: Seq::empty(), fields: Seq::empty() }),
    {
        TupleBuilder::new()
    }
}

/// Encoding is deterministic: tuples with one name and the same fields have
/// one binary form.
pub proof fn lemma_serialize_deterministic(a: Tuple, b: Tuple)
    requires
        a@ == b@,
    ensures
        a.wire() == b.wire(),
{
}

/// Whether two fields hold equal values of one kind.
pub open spec fn values_equal(a: TupleField, b: TupleField) -> bool {
    match (a, b) {
        (TupleField::Int(Some(x)), TupleField::Int(Some(y))) => x == y,
        (TupleField::Float(Some(x)), TupleField::Float(Some(y))) => float_bits_equal(x, y),
        _ => false,
    }
}

/// A tuple that has fields, all of them wildcards, does not match itself:
/// at no position does a side hold a value.
pub proof fn lemma_wildcards_do_not_match_themselves(t: TupleView)
    requires
        t.fields.len() > 0,
        forall|i: int| 0 <= i < t.fields.len() ==> (#[trigger] t.fields[i]).is_any(),
    ensures
        !t.matches(t),
{
    assert(t.fields[0].is_any());
    assert(!fields_match(t.fields[0], t.fields[0]));
}

/// Matching is symmetric: a tuple matches a template exactly when the
/// template matches the tuple.
pub proof fn lemma_matches_symmetric(a: TupleView, b: TupleView)
    ensures
        a.matches(b) == b.matches(a),
{
    if a.matches(b) {
        assert forall|i: int| 0 <= i < b.fields.len() implies fields_match(
            #[trigger] b.fields[i],
            a.fields[i],
        ) by {
            assert(fields_match(a.fields[i], b.fields[i]));
        }
    }
    if b.matches(a) {
        assert forall|i: int| 0 <= i < a.fields.len() implies fields_match(
            #[trigger] a.fields[i],
            b.fields[i],
        ) by {
            assert(fields_match(b.fields[i], a.fields[i]));
        }
    }
}

/// A tuple of values matches every template of its name and length that, at
/// each position, holds either the wildcard of the tuple's kind or a value
/// equal to the tuple's.
pub proof fn lemma_concrete_matches_template(t: TupleView, template: TupleView)
    requires
        t.is_concrete(),
        t.name == template.name,
        t.fields.len() == template.fields.len(),
        forall|i: int|
            0 <= i < t.fields.len() ==> {
                ||| (#[trigger] template.fields[i]).is_any() && template.fields[i].same_kind(
                    t.fields[i],
                )
                ||| values_equal(t.fields[i], template.fields[i])
            },
    ensures
        t.matches(template),
{
    assert forall|i: int| 0 <= i < t.fields.len() implies fields_match(
        #[trigger] t.fields[i],
        template.fields[i],
    ) by {
        assert(t.fields[i].is_value());
        assert(template.fields[i].is_any() && template.fields[i].same_kind(t.fields[i])
            || values_equal(t.fields[i], template.fields[i]));
    }
}

} // verus!
