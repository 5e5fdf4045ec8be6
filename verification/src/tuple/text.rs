//! The textual form of a tuple.
//!
//! ```text
//! tuple := '(' NAME ( ',' field )* ')'
//! NAME  := '\'' name '\''
//! field := 'undefined' | 'undef' | 'UNDEFINED' | 'UNDEF' | '?'
//!        | ( 'int'   | 'INT'   ) ' ' ( INTEGER | '?' )
//!        | ( 'float' | 'FLOAT' ) ' ' ( FLOAT   | '?' )
//! ```
//!
//! White space around the name, around a field, and between a type and its
//! value does not count. An integer is an optional sign and decimal digits.
//! What a float literal is its reader decides: the texts of the float
//! literals are handed out, and their bit patterns are taken back.

use crate::tuple::tuple::{Tuple, TupleField, TupleParseError, TupleView};
use crate::util::{find_byte, index_of, lemma_index_of};
use vstd::prelude::*;
use vstd::string::StringSliceAdditionalSpecFns;
use vstd::utf8::*;

verus! {

/// The parenthesis `(` that opens a tuple.
pub const CHAR_OPEN: u8 = 0x28;

/// The parenthesis `)` that closes a tuple.
pub const CHAR_CLOSE: u8 = 0x29;

/// The comma between the name and the fields.
pub const CHAR_COMMA: u8 = 0x2C;

/// The single quote on both sides of the name.
pub const CHAR_QUOTE: u8 = 0x27;

/// The space between a type and its value.
pub const CHAR_SPACE: u8 = 0x20;

/// The sign `+`.
pub const CHAR_PLUS: u8 = 0x2B;

/// The sign `-`.
pub const CHAR_MINUS: u8 = 0x2D;

/// The word `?`.
pub const WORD_ANY: [u8; 1] = [0x3F];

/// The word `int`.
pub const WORD_INT: [u8; 3] = [0x69, 0x6E, 0x74];

/// The word `INT`.
pub const WORD_INT_UPPER: [u8; 3] = [0x49, 0x4E, 0x54];

/// The word `float`.
pub const WORD_FLOAT: [u8; 5] = [0x66, 0x6C, 0x6F, 0x61, 0x74];

/// The word `FLOAT`.
pub const WORD_FLOAT_UPPER: [u8; 5] = [0x46, 0x4C, 0x4F, 0x41, 0x54];

/// The word `undef`.
pub const WORD_UNDEF: [u8; 5] = [0x75, 0x6E, 0x64, 0x65, 0x66];

/// The word `UNDEF`.
pub const WORD_UNDEF_UPPER: [u8; 5] = [0x55, 0x4E, 0x44, 0x45, 0x46];

/// The word `undefined`.
pub const WORD_UNDEFINED: [u8; 9] = [0x75, 0x6E, 0x64, 0x65, 0x66, 0x69, 0x6E, 0x65, 0x64];

/// The word `UNDEFINED`.
pub const WORD_UNDEFINED_UPPER: [u8; 9] = [0x55, 0x4E, 0x44, 0x45, 0x46, 0x49, 0x4E, 0x45, 0x44];

/// White space: the space and the control characters from tab to carriage return.
pub open spec fn is_space(b: u8) -> bool {
    b == 0x20 || (0x09 <= b <= 0x0D)
}

/// `s` without the white space at its start.
pub open spec fn trim_start(s: Seq<u8>) -> Seq<u8>
    decreases s.len(),
{
    if s.len() > 0 && is_space(s[0]) {
        trim_start(s.drop_first())
    } else {
        s
    }
}

/// `s` without the white space at its end.
pub open spec fn trim_end(s: Seq<u8>) -> Seq<u8>
    decreases s.len(),
{
    if s.len() > 0 && is_space(s.last()) {
        trim_end(s.drop_last())
    } else {
        s
    }
}

/// `s` without the white space at its start and at its end.
pub open spec fn trim(s: Seq<u8>) -> Seq<u8> {
    trim_end(trim_start(s))
}

/// Whether `b` is a decimal digit.
pub open spec fn is_digit(b: u8) -> bool {
    0x30 <= b <= 0x39
}

/// Whether `s` holds decimal digits only.
pub open spec fn all_digits(s: Seq<u8>) -> bool {
    forall|i: int| 0 <= i < s.len() ==> is_digit(#[trigger] s[i])
}

/// The number that the decimal digits `s` spell.
pub open spec fn digits_value(s: Seq<u8>) -> int
    decreases s.len(),
{
    if s.len() == 0 {
        0
    } else {
        digits_value(s.drop_last()) * 10 + (s.last() - 0x30)
    }
}

/// The number that `s` spells: an optional sign, then at least one decimal
/// digit and nothing else; `None` where `s` is not of that form or the
/// number does not fit 32 bits.
pub open spec fn int_of_text(s: Seq<u8>) -> Option<i32> {
    let signed = s.len() > 0 && (s[0] == CHAR_MINUS || s[0] == CHAR_PLUS);
    let digits = if signed {
        s.drop_first()
    } else {
        s
    };
    let magnitude = digits_value(digits);
    let value = if signed && s[0] == CHAR_MINUS {
        -magnitude
    } else {
        magnitude
    };
    if digits.len() > 0 && all_digits(digits) && -0x8000_0000 <= value <= 0x7FFF_FFFF {
        Some(value as i32)
    } else {
        None
    }
}

/// Whether `t` is one of the words for an undefined field.
pub open spec fn is_undefined_word(t: Seq<u8>) -> bool {
    t == WORD_UNDEFINED@ || t == WORD_UNDEF@ || t == WORD_UNDEFINED_UPPER@ || t == WORD_UNDEF_UPPER@
        || t == WORD_ANY@
}

/// What one field of the text says: a field, or a float literal that is
/// still to be read.
pub enum FieldText {
    Field(TupleField),
    FloatLiteral(Seq<u8>),
}

/// What the text between two commas says.
///
/// A word for an undefined field stands alone. Anything else is a type, a
/// space and a value: `InvalidFormat` without the space, `UnsupportedType`
/// where the type is neither `int` nor `float`, `ValueParseError` where an
/// `int` has a value that is neither `?` nor a number.
pub open spec fn field_text(token: Seq<u8>) -> Result<FieldText, TupleParseError> {
    let t = trim(token);
    let mid = index_of(t, CHAR_SPACE);
    let kind = trim(t.take(mid));
    let value = trim(t.skip(mid));
    if is_undefined_word(t) {
        Ok(FieldText::Field(TupleField::Undefined))
    } else if mid >= t.len() {
        Err(TupleParseError::InvalidFormat)
    } else if kind == WORD_INT@ || kind == WORD_INT_UPPER@ {
        if value == WORD_ANY@ {
            Ok(FieldText::Field(TupleField::Int(None)))
        } else {
            match int_of_text(value) {
                Some(v) => Ok(FieldText::Field(TupleField::Int(Some(v)))),
                None => Err(TupleParseError::ValueParseError),
            }
        }
    } else if kind == WORD_FLOAT@ || kind == WORD_FLOAT_UPPER@ {
        if value == WORD_ANY@ {
            Ok(FieldText::Field(TupleField::Float(None)))
        } else {
            Ok(FieldText::FloatLiteral(value))
        }
    } else {
        Err(TupleParseError::UnsupportedType)
    }
}

/// The fields that `s`, the text after the comma that follows the name,
/// says. `float_bits` holds, for each float literal in order, its bit
/// pattern, or `None` where the literal is no number; a literal beyond the
/// end of `float_bits` counts as no number.
pub open spec fn fields_of_text(s: Seq<u8>, float_bits: Seq<Option<u32>>) -> Result<
    Seq<TupleField>,
    TupleParseError,
>
    decreases s.len(),
{
    let e = index_of(s, CHAR_COMMA);
    match field_text(s.take(e)) {
        Err(x) => Err(x),
        Ok(FieldText::Field(f)) => if e < 0 || e >= s.len() {
            Ok(seq![f])
        } else {
            match fields_of_text(s.skip(e + 1), float_bits) {
                Ok(rest) => Ok(seq![f] + rest),
                Err(x) => Err(x),
            }
        },
        Ok(FieldText::FloatLiteral(_)) => if float_bits.len() == 0 || float_bits[0] is None {
            Err(TupleParseError::ValueParseError)
        } else if e < 0 || e >= s.len() {
            Ok(seq![TupleField::Float(float_bits[0])])
        } else {
            match fields_of_text(s.skip(e + 1), float_bits.drop_first()) {
                Ok(rest) => Ok(seq![TupleField::Float(float_bits[0])] + rest),
                Err(x) => Err(x),
            }
        },
    }
}

/// The float literals of `s`, the text after the comma that follows the
/// name, in their order, up to the first field that is in error.
pub open spec fn literals_of_text(s: Seq<u8>) -> Seq<Seq<u8>>
    decreases s.len(),
{
    let e = index_of(s, CHAR_COMMA);
    match field_text(s.take(e)) {
        Err(_) => Seq::empty(),
        Ok(ft) => {
            let here = match ft {
                FieldText::Field(_) => Seq::<Seq<u8>>::empty(),
                FieldText::FloatLiteral(v) => seq![v],
            };
            if e < 0 || e >= s.len() {
                here
            } else {
                here + literals_of_text(s.skip(e + 1))
            }
        },
    }
}

/// What stands between the parenthesis that opens the text and the first
/// comma, or the parenthesis that closes the text: the name in its quotes.
pub open spec fn name_token(b: Seq<u8>) -> Seq<u8> {
    let inner = b.subrange(1, b.len() - 1);
    trim(inner.take(index_of(inner, CHAR_COMMA)))
}

/// The bytes of the name: the name token without its first byte and its last.
pub open spec fn name_of_text(b: Seq<u8>) -> Seq<u8> {
    name_token(b).subrange(1, name_token(b).len() - 1)
}

/// Where the text stops being a tuple before its fields, if it does.
///
/// `NameError` for no text at all; `InvalidFormat` without the outer
/// parentheses; `NameError` where the name does not stand between single
/// quotes, is longer than 31 bytes or holds a zero byte.
pub open spec fn header_error(b: Seq<u8>) -> Option<TupleParseError> {
    let token = name_token(b);
    let name = name_of_text(b);
    if b.len() == 0 {
        Some(TupleParseError::NameError)
    } else if b.len() < 2 || b[0] != CHAR_OPEN || b.last() != CHAR_CLOSE {
        Some(TupleParseError::InvalidFormat)
    } else if token.len() < 2 || token[0] != CHAR_QUOTE || token.last() != CHAR_QUOTE {
        Some(TupleParseError::NameError)
    } else if name.len() > 31 || exists|i: int| 0 <= i < name.len() && name[i] == 0 {
        Some(TupleParseError::NameError)
    } else {
        None
    }
}


/// The text after the comma that follows the name, or `None` where the
/// name is all there is.
pub open spec fn fields_part(b: Seq<u8>) -> Option<Seq<u8>> {
    let inner = b.subrange(1, b.len() - 1);
    let e = index_of(inner, CHAR_COMMA);
    if e >= inner.len() {
        None
    } else {
        Some(inner.skip(e + 1))
    }
}

/// The tuple that the text with the UTF-8 bytes `b` says, given the bit
/// patterns of its float literals. More than 255 fields are `InvalidFormat`.
pub open spec fn tuple_of_text(b: Seq<u8>, float_bits: Seq<Option<u32>>) -> Result<
    TupleView,
    TupleParseError,
> {
    match header_error(b) {
        Some(e) => Err(e),
        None => {
            let fields = match fields_part(b) {
                None => Ok(Seq::empty()),
                Some(s) => fields_of_text(s, float_bits),
            };
            match fields {
                Err(e) => Err(e),
                Ok(fs) => if fs.len() > 255 {
                    Err(TupleParseError::InvalidFormat)
                } else {
                    Ok(TupleView { name: decode_utf8(name_of_text(b)), fields: fs })
                },
            }
        },
    }
}

/// The float literals of the text with the UTF-8 bytes `b`, in their order,
/// up to the first field that is in error; none where the text stops being
/// a tuple before its fields.
pub open spec fn float_literals_of_text(b: Seq<u8>) -> Seq<Seq<u8>> {
    if header_error(b) is Some {
        Seq::empty()
    } else {
        match fields_part(b) {
            None => Seq::empty(),
            Some(s) => literals_of_text(s),
        }
    }
}

/// A digit string is worth at least as much as each of its beginnings.
pub proof fn lemma_digits_value_grows(s: Seq<u8>, k: int)
    requires
        all_digits(s),
        0 <= k <= s.len(),
    ensures
        0 <= digits_value(s.take(k)) <= digits_value(s),
    decreases s.len() - k,
{
    if k == s.len() {
        assert(s.take(k) =~= s);
        lemma_digits_value_nonnegative(s);
    } else {
        lemma_digits_value_grows(s, k + 1);
        let longer = s.take(k + 1);
        assert(longer.drop_last() =~= s.take(k));
        assert(is_digit(s[k]) && longer.last() == s[k]);
        lemma_digits_value_nonnegative(s.take(k));
    }
}

/// A digit string is worth no less than zero.
pub proof fn lemma_digits_value_nonnegative(s: Seq<u8>)
    requires
        all_digits(s),
    ensures
        0 <= digits_value(s),
    decreases s.len(),
{
    if s.len() > 0 {
        assert(is_digit(s.last()));
        assert forall|i: int| 0 <= i < s.drop_last().len() implies is_digit(
            #[trigger] s.drop_last()[i],
        ) by {
            assert(s.drop_last()[i] == s[i]);
        }
        lemma_digits_value_nonnegative(s.drop_last());
    }
}

/// Whether `b` is white space.
pub(crate) fn is_space_byte(b: u8) -> (r: bool)
    ensures
        r == is_space(b),
{
    b == 0x20 || (0x09 <= b && b <= 0x0D)
}

/// The part of the bytes from `lo` to `hi` that is left when the white
/// space at both ends is cut off.
pub(crate) fn trim_range(bytes: &[u8], lo: usize, hi: usize) -> (r: (usize, usize))
    requires
        lo <= hi <= bytes@.len(),
    ensures
        lo <= r.0 <= r.1 <= hi,
        bytes@.subrange(r.0 as int, r.1 as int) == trim(bytes@.subrange(lo as int, hi as int)),
        r.0 > lo ==> is_space(bytes@[r.0 - 1]),
        r.0 < hi ==> !is_space(bytes@[r.0 as int]),
        r.1 < hi ==> is_space(bytes@[r.1 as int]),
{
    let mut a: usize = lo;
    while a < hi && is_space_byte(bytes[a])
        invariant
            lo <= a <= hi <= bytes@.len(),
            a > lo ==> is_space(bytes@[a - 1]),
            trim_start(bytes@.subrange(lo as int, hi as int)) == trim_start(
                bytes@.subrange(a as int, hi as int),
            ),
        decreases hi - a,
    {
        assert(bytes@.subrange(a as int, hi as int).drop_first() =~= bytes@.subrange(
            a + 1,
            hi as int,
        ));
        a += 1;
    }
    let mut b: usize = hi;
    while b > a && is_space_byte(bytes[b - 1])
        invariant
            a <= b <= hi <= bytes@.len(),
            b < hi ==> is_space(bytes@[b as int]),
            trim_end(bytes@.subrange(a as int, hi as int)) == trim_end(
                bytes@.subrange(a as int, b as int),
            ),
        decreases b - a,
    {
        assert(bytes@.subrange(a as int, b as int).drop_last() =~= bytes@.subrange(
            a as int,
            b - 1,
        ));
        b -= 1;
    }
    (a, b)
}

/// Whether the bytes from `lo` to `hi` are the bytes of `word`.
pub(crate) fn range_is(bytes: &[u8], lo: usize, hi: usize, word: &[u8]) -> (r: bool)
    requires
        lo <= hi <= bytes@.len(),
    ensures
        r == (bytes@.subrange(lo as int, hi as int) == word@),
{
    if hi - lo != word.len() {
        return false;
    }
    let mut i: usize = 0;
    while i < word.len()
        invariant
            i <= word@.len(),
            hi - lo == word@.len(),
            lo <= hi <= bytes@.len(),
            forall|k: int| 0 <= k < i ==> bytes@[lo + k] == word@[k],
        decreases word@.len() - i,
    {
        if bytes[lo + i] != word[i] {
            assert(bytes@.subrange(lo as int, hi as int)[i as int] != word@[i as int]);
            return false;
        }
        i += 1;
    }
    assert(bytes@.subrange(lo as int, hi as int) =~= word@);
    true
}

/// The number that the bytes from `lo` to `hi` spell.
#[verifier::loop_isolation(false)]
pub(crate) fn parse_int(bytes: &[u8], lo: usize, hi: usize) -> (r: Option<i32>)
    requires
        lo <= hi <= bytes@.len(),
    ensures
        r == int_of_text(bytes@.subrange(lo as int, hi as int)),
{
    let ghost s = bytes@.subrange(lo as int, hi as int);
    if lo == hi {
        return None;
    }
    let first = bytes[lo];
    assert(s[0] == first);
    let signed = first == CHAR_MINUS || first == CHAR_PLUS;
    let start: usize = if signed {
        lo + 1
    } else {
        lo
    };
    let ghost digits = bytes@.subrange(start as int, hi as int);
    assert(signed ==> s.drop_first() =~= digits);
    if start == hi {
        return None;
    }
    let mut acc: i64 = 0;
    let mut i: usize = start;
    while i < hi
        invariant
            start <= i <= hi <= bytes@.len(),
            digits == bytes@.subrange(start as int, hi as int),
            all_digits(digits.take(i - start)),
            acc == digits_value(digits.take(i - start)),
            0 <= acc <= 0x8000_0000,
        decreases hi - i,
    {
        let c = bytes[i];
        assert(digits[i - start] == c);
        if c < 0x30 || c > 0x39 {
            return None;
        }
        let next: i64 = acc * 10 + (c - 0x30) as i64;
        proof {
            let longer = digits.take(i + 1 - start);
            assert(longer.drop_last() =~= digits.take(i - start));
            assert(longer.last() == c);
            assert forall|k: int| 0 <= k < longer.len() implies is_digit(#[trigger] longer[k]) by {
                if k < i - start {
                    assert(digits.take(i - start)[k] == longer[k]);
                }
            }
            assert(next == digits_value(longer));
            if all_digits(digits) {
                lemma_digits_value_grows(digits, i + 1 - start);
            }
        }
        if next > 0x8000_0000 {
            return None;
        }
        acc = next;
        i += 1;
    }
    assert(digits.take(i - start) =~= digits);
    if first == CHAR_MINUS {
        Some((-acc) as i32)
    } else if acc <= 0x7FFF_FFFF {
        Some(acc as i32)
    } else {
        None
    }
}

/// What one field of the text says, with a float literal given by where it stands.
pub(crate) enum ScannedField {
    Field(TupleField),
    FloatLiteral(usize, usize),
}

/// Reads the field that stands between `lo` and `hi`.
///
/// A float literal is handed back as the positions at which it starts and
/// ends; before it stands an ASCII character, and so does after it, unless
/// it ends at `hi`.
pub(crate) fn scan_field(bytes: &[u8], lo: usize, hi: usize) -> (r: Result<
    ScannedField,
    TupleParseError,
>)
    requires
        lo <= hi <= bytes@.len(),
    ensures
        field_text(bytes@.subrange(lo as int, hi as int)) == (match r {
            Ok(ScannedField::Field(f)) => Ok::<FieldText, TupleParseError>(FieldText::Field(f)),
            Ok(ScannedField::FloatLiteral(a, b)) => Ok::<FieldText, TupleParseError>(
                FieldText::FloatLiteral(bytes@.subrange(a as int, b as int)),
            ),
            Err(e) => Err::<FieldText, TupleParseError>(e),
        }),
        match r {
            Ok(ScannedField::FloatLiteral(a, b)) => {
                &&& lo < a <= b <= hi
                &&& bytes@[a - 1] < 128
                &&& b < hi ==> bytes@[b as int] < 128
            },
            _ => true,
        },
{
    let (a, b) = trim_range(bytes, lo, hi);
    let ghost t = bytes@.subrange(a as int, b as int);
    if range_is(bytes, a, b, &WORD_UNDEFINED) || range_is(bytes, a, b, &WORD_UNDEF) || range_is(
        bytes,
        a,
        b,
        &WORD_UNDEFINED_UPPER,
    ) || range_is(bytes, a, b, &WORD_UNDEF_UPPER) || range_is(bytes, a, b, &WORD_ANY) {
        return Ok(ScannedField::Field(TupleField::Undefined));
    }
    let mid = find_byte(bytes, a, b, CHAR_SPACE);
    if mid >= b {
        return Err(TupleParseError::InvalidFormat);
    }
    proof {
        lemma_index_of(t, CHAR_SPACE);
        assert(t.take(mid - a) =~= bytes@.subrange(a as int, mid as int));
        assert(t.skip(mid - a) =~= bytes@.subrange(mid as int, b as int));
        assert(t[mid - a] == bytes@[mid as int]);
    }
    let (ka, kb) = trim_range(bytes, a, mid);
    let (va, vb) = trim_range(bytes, mid, b);
    assert(va > mid);
    if range_is(bytes, ka, kb, &WORD_INT) || range_is(bytes, ka, kb, &WORD_INT_UPPER) {
        if range_is(bytes, va, vb, &WORD_ANY) {
            Ok(ScannedField::Field(TupleField::Int(None)))
        } else {
            match parse_int(bytes, va, vb) {
                Some(v) => Ok(ScannedField::Field(TupleField::Int(Some(v)))),
                None => Err(TupleParseError::ValueParseError),
            }
        }
    } else if range_is(bytes, ka, kb, &WORD_FLOAT) || range_is(bytes, ka, kb, &WORD_FLOAT_UPPER) {
        if range_is(bytes, va, vb, &WORD_ANY) {
            Ok(ScannedField::Field(TupleField::Float(None)))
        } else {
            Ok(ScannedField::FloatLiteral(va, vb))
        }
    } else {
        Err(TupleParseError::UnsupportedType)
    }
}

/// The part of `s` between the position after `q` and the position `hi`,
/// where an ASCII character stands at `q`, and at `hi` unless `s` ends there.
pub(crate) fn text_between(s: &str, q: usize, hi: usize) -> (r: &str)
    requires
        q < hi <= s.spec_bytes().len(),
        s.spec_bytes()[q as int] < 128,
        hi < s.spec_bytes().len() ==> s.spec_bytes()[hi as int] < 128,
    ensures
        r.spec_bytes() == s.spec_bytes().subrange(q + 1, hi as int),
        r@ == decode_utf8(s.spec_bytes().subrange(q + 1, hi as int)),
{
    let ghost bytes = s.spec_bytes();
    proof {
        encode_utf8_valid_utf8(s@);
        is_char_boundary_iff_not_is_continuation_byte(bytes, q as int);
        valid_utf8_split(bytes, q as int);
    }
    let (_, tail) = s.split_at(q);
    let ghost tail_bytes = tail.spec_bytes();
    proof {
        assert(tail_bytes[0] == bytes[q as int]);
        assert(is_char_boundary(tail_bytes, 1)) by {
            reveal_with_fuel(is_char_boundary, 2);
        }
        valid_utf8_split(tail_bytes, 1);
    }
    let (_, rest) = tail.split_at(1);
    let ghost rest_bytes = rest.spec_bytes();
    proof {
        assert(rest_bytes =~= bytes.subrange(q + 1, bytes.len() as int));
        if hi < bytes.len() {
            assert(rest_bytes[hi - q - 1] == bytes[hi as int]);
            is_char_boundary_iff_not_is_continuation_byte(rest_bytes, hi - q - 1);
        } else {
            is_char_boundary_start_end_of_seq(rest_bytes);
        }
    }
    let (piece, _) = rest.split_at(hi - q - 1);
    proof {
        assert(piece.spec_bytes() =~= bytes.subrange(q + 1, hi as int));
        encode_utf8_decode_utf8(piece@);
    }
    piece
}

/// Where the parts of a text stand whose header is in order.
pub(crate) struct TextHeader {
    /// The position of the quote that opens the name.
    pub(crate) quote: usize,
    /// The position of the quote that closes the name.
    pub(crate) name_end: usize,
    /// The position after the comma that follows the name, if there is one.
    pub(crate) fields: Option<usize>,
}

/// Reads the parentheses and the name of a text.
pub(crate) fn scan_header(bytes: &[u8]) -> (r: Result<TextHeader, TupleParseError>)
    ensures
        match r {
            Ok(h) => {
                &&& header_error(bytes@) is None
                &&& bytes@.last() == CHAR_CLOSE
                &&& h.quote < h.name_end < bytes@.len()
                &&& bytes@[h.quote as int] == CHAR_QUOTE
                &&& bytes@[h.name_end as int] == CHAR_QUOTE
                &&& name_of_text(bytes@) == bytes@.subrange(h.quote + 1, h.name_end as int)
                &&& match h.fields {
                    Some(at) => at <= bytes@.len() - 1 && fields_part(bytes@) == Some(
                        bytes@.subrange(at as int, bytes@.len() - 1),
                    ),
                    None => fields_part(bytes@) is None,
                }
            },
            Err(e) => header_error(bytes@) == Some(e),
        },
{
    let n = bytes.len();
    if n == 0 {
        return Err(TupleParseError::NameError);
    }
    if n < 2 || bytes[0] != CHAR_OPEN || bytes[n - 1] != CHAR_CLOSE {
        return Err(TupleParseError::InvalidFormat);
    }
    let end: usize = n - 1;
    let ghost inner = bytes@.subrange(1, end as int);
    let e = find_byte(bytes, 1, end, CHAR_COMMA);
    let (a, b) = trim_range(bytes, 1, e);
    let ghost token = bytes@.subrange(a as int, b as int);
    proof {
        lemma_index_of(inner, CHAR_COMMA);
        assert(inner.take(e - 1) =~= bytes@.subrange(1, e as int));
        if e < end {
            assert(inner.skip(e - 1 + 1) =~= bytes@.subrange(e + 1, end as int));
        }
    }
    if b - a < 2 || bytes[a] != CHAR_QUOTE || bytes[b - 1] != CHAR_QUOTE {
        proof {
            if b - a >= 2 {
                assert(token[0] == bytes@[a as int]);
                assert(token.last() == bytes@[b - 1]);
            }
        }
        return Err(TupleParseError::NameError);
    }
    let ghost name = token.subrange(1, token.len() - 1);
    proof {
        assert(token[0] == bytes@[a as int]);
        assert(token.last() == bytes@[b - 1]);
        assert(name =~= bytes@.subrange(a + 1, b - 1));
    }
    if b - 1 - (a + 1) > 31 {
        return Err(TupleParseError::NameError);
    }
    let zero = find_byte(bytes, a + 1, b - 1, 0);
    proof {
        lemma_index_of(name, 0);
    }
    if zero < b - 1 {
        assert(name[zero - (a + 1)] == 0);
        return Err(TupleParseError::NameError);
    }
    Ok(
        TextHeader {
            quote: a,
            name_end: b - 1,
            fields: if e < end {
                Some(e + 1)
            } else {
                None
            },
        },
    )
}

/// The result of reading some fields, followed by the result of reading the rest.
pub open spec fn fields_then(
    done: Seq<TupleField>,
    rest: Result<Seq<TupleField>, TupleParseError>,
) -> Result<Seq<TupleField>, TupleParseError> {
    match rest {
        Ok(fs) => Ok(done + fs),
        Err(e) => Err(e),
    }
}

/// Reads the fields that stand between `start` and `end`.
#[verifier::loop_isolation(false)]
pub(crate) fn parse_fields(
    bytes: &[u8],
    start: usize,
    end: usize,
    float_bits: &[Option<u32>],
) -> (r: Result<Vec<TupleField>, TupleParseError>)
    requires
        start <= end <= bytes@.len(),
    ensures
        fields_of_text(bytes@.subrange(start as int, end as int), float_bits@) == (match r {
            Ok(fs) => Ok::<Seq<TupleField>, TupleParseError>(fs@),
            Err(e) => Err::<Seq<TupleField>, TupleParseError>(e),
        }),
{
    let ghost whole = fields_of_text(bytes@.subrange(start as int, end as int), float_bits@);
    let mut fields: Vec<TupleField> = Vec::new();
    let mut pos: usize = start;
    let mut used: usize = 0;
    let mut more = true;
    assert(float_bits@.skip(0) =~= float_bits@);
    assert(Seq::<TupleField>::empty() + fields@ =~= fields@);
    while more
        invariant
            start <= pos <= end,
            used <= float_bits@.len(),
            more ==> whole == fields_then(
                fields@,
                fields_of_text(
                    bytes@.subrange(pos as int, end as int),
                    float_bits@.skip(used as int),
                ),
            ),
            !more ==> whole == Ok::<Seq<TupleField>, TupleParseError>(fields@),
        decreases end - pos + (if more { 1int } else { 0int }),
    {
        let ghost s = bytes@.subrange(pos as int, end as int);
        let ghost bits = float_bits@.skip(used as int);
        let e = find_byte(bytes, pos, end, CHAR_COMMA);
        proof {
            lemma_index_of(s, CHAR_COMMA);
            assert(s.take(e - pos) =~= bytes@.subrange(pos as int, e as int));
            if e < end {
                assert(s.skip(e - pos + 1) =~= bytes@.subrange(e + 1, end as int));
            }
        }
        let field = match scan_field(bytes, pos, e) {
            Err(x) => {
                return Err(x);
            },
            Ok(ScannedField::Field(f)) => f,
            Ok(ScannedField::FloatLiteral(_, _)) => {
                if used >= float_bits.len() {
                    return Err(TupleParseError::ValueParseError);
                }
                assert(bits[0] == float_bits@[used as int]);
                assert(bits.drop_first() =~= float_bits@.skip(used + 1));
                let value = float_bits[used];
                if value.is_none() {
                    return Err(TupleParseError::ValueParseError);
                }
                used += 1;
                TupleField::Float(value)
            },
        };
        proof {
            let next = fields_of_text(
                bytes@.subrange(e + 1, end as int),
                float_bits@.skip(used as int),
            );
            if e < end {
                match next {
                    Ok(rest) => {
                        assert(fields@.push(field) + rest =~= fields@ + (seq![field] + rest));
                    },
                    Err(_) => {},
                }
            } else {
                assert(fields@.push(field) =~= fields@ + seq![field]);
            }
        }
        fields.push(field);
        if e < end {
            pos = e + 1;
        } else {
            more = false;
        }
    }
    Ok(fields)
}

/// Whether `texts` are the texts whose UTF-8 bytes are `literals`, one by one.
pub open spec fn texts_spell(texts: Seq<String>, literals: Seq<Seq<u8>>) -> bool {
    &&& texts.len() == literals.len()
    &&& forall|i: int| 0 <= i < texts.len() ==> encode_utf8((#[trigger] texts[i])@) == literals[i]
}

/// Collects the float literals of the fields that stand between `start`
/// and `end` in the bytes of `s`.
#[verifier::loop_isolation(false)]
pub(crate) fn collect_literals(s: &str, start: usize, end: usize) -> (r: Vec<String>)
    requires
        start <= end < s.spec_bytes().len(),
        s.spec_bytes()[end as int] < 128,
    ensures
        texts_spell(r@, literals_of_text(s.spec_bytes().subrange(start as int, end as int))),
{
    let bytes = s.as_bytes();
    let ghost whole = literals_of_text(bytes@.subrange(start as int, end as int));
    let mut texts: Vec<String> = Vec::new();
    let ghost mut found: Seq<Seq<u8>> = Seq::empty();
    let mut pos: usize = start;
    let mut more = true;
    assert(found + whole =~= whole);
    while more
        invariant
            start <= pos <= end,
            texts_spell(texts@, found),
            more ==> whole == found + literals_of_text(bytes@.subrange(pos as int, end as int)),
            !more ==> whole == found,
        decreases end - pos + (if more { 1int } else { 0int }),
    {
        let ghost part = bytes@.subrange(pos as int, end as int);
        let e = find_byte(bytes, pos, end, CHAR_COMMA);
        proof {
            lemma_index_of(part, CHAR_COMMA);
            assert(part.take(e - pos) =~= bytes@.subrange(pos as int, e as int));
            if e < end {
                assert(part.skip(e - pos + 1) =~= bytes@.subrange(e + 1, end as int));
            }
        }
        match scan_field(bytes, pos, e) {
            Err(_) => {
                assert(found + Seq::<Seq<u8>>::empty() =~= found);
                more = false;
            },
            Ok(scanned) => {
                match scanned {
                    ScannedField::Field(_) => {
                        assert(found + Seq::<Seq<u8>>::empty() =~= found);
                        proof {
                            if e < end {
                                let rest = literals_of_text(bytes@.subrange(e + 1, end as int));
                                assert(found + (Seq::<Seq<u8>>::empty() + rest) =~= found + rest);
                            }
                        }
                    },
                    ScannedField::FloatLiteral(a, b) => {
                        let ghost literal = bytes@.subrange(a as int, b as int);
                        let ghost before = found;
                        let text = text_between(s, a - 1, b);
                        proof {
                            found = found.push(literal);
                            assert(before + seq![literal] =~= found);
                            if e < end {
                                let rest = literals_of_text(bytes@.subrange(e + 1, end as int));
                                assert(before + (seq![literal] + rest) =~= found + rest);
                            }
                        }
                        texts.push(text.to_owned());
                    },
                }
                if e < end {
                    pos = e + 1;
                } else {
                    more = false;
                }
            },
        }
    }
    texts
}

impl Tuple {
    /// The texts of the float literals of `s`, in their order, up to the
    /// first field that is in error; none where `s` stops being a tuple
    /// before its fields.
    pub fn float_literals(s: &str) -> (r: Vec<String>)
        ensures
            texts_spell(r@, float_literals_of_text(s.spec_bytes())),
    {
        let bytes = s.as_bytes();
        match scan_header(bytes) {
            Err(_) => Vec::new(),
            Ok(h) => match h.fields {
                None => Vec::new(),
                Some(at) => collect_literals(s, at, bytes.len() - 1),
            },
        }
    }

    /// The tuple that the text `s` says.
    ///
    /// `float_bits` holds, for each float literal of `s` in the order of
    /// [`Tuple::float_literals`], the bit pattern of the number it spells,
    /// or `None` where it spells none; an entry that is missing counts as
    /// `None`, and a literal that spells no number is a `ValueParseError`.
    pub fn from_str(s: &str, float_bits: &[Option<u32>]) -> (r: Result<Tuple, TupleParseError>)
        ensures
            tuple_of_text(s.spec_bytes(), float_bits@) == (match r {
                Ok(t) => Ok::<TupleView, TupleParseError>(t@),
                Err(e) => Err::<TupleView, TupleParseError>(e),
            }),
            r is Ok ==> r->Ok_0@.wf(),
    {
        proof {
            encode_utf8_valid_utf8(s@);
            if tuple_of_text(s.spec_bytes(), float_bits@) is Ok {
                lemma_tuple_of_text_wf(s.spec_bytes(), float_bits@);
            }
        }
        let bytes = s.as_bytes();
        let h = match scan_header(bytes) {
            Ok(h) => h,
            Err(e) => {
                return Err(e);
            },
        };
        let fields = match h.fields {
            None => Vec::new(),
            Some(at) => match parse_fields(bytes, at, bytes.len() - 1, float_bits) {
                Ok(fs) => fs,
                Err(e) => {
                    return Err(e);
                },
            },
        };
        if fields.len() > 255 {
            return Err(TupleParseError::InvalidFormat);
        }
        let name = text_between(s, h.quote, h.name_end).to_owned();
        let t = Tuple { name, fields };
        assert(t@.fields =~= fields@);
        Ok(t)
    }
}

/// The entry of `float_bits` for the float literal number `i`: `None` where
/// there is no entry.
pub open spec fn bits_at(float_bits: Seq<Option<u32>>, i: int) -> Option<u32> {
    if 0 <= i < float_bits.len() {
        float_bits[i]
    } else {
        None
    }
}

/// What the fields of a text say depends on the bit patterns of its float
/// literals alone, as many as [`literals_of_text`] lists.
pub proof fn lemma_fields_need_their_literals(
    s: Seq<u8>,
    x: Seq<Option<u32>>,
    y: Seq<Option<u32>>,
)
    requires
        forall|i: int| 0 <= i < literals_of_text(s).len() ==> bits_at(x, i) == bits_at(y, i),
    ensures
        fields_of_text(s, x) == fields_of_text(s, y),
    decreases s.len(),
{
    let e = index_of(s, CHAR_COMMA);
    lemma_index_of(s, CHAR_COMMA);
    let rest = s.skip(e + 1);
    match field_text(s.take(e)) {
        Err(_) => {},
        Ok(FieldText::Field(_)) => {
            if e < s.len() {
                assert(literals_of_text(s) =~= literals_of_text(rest));
                lemma_fields_need_their_literals(rest, x, y);
            }
        },
        Ok(FieldText::FloatLiteral(v)) => {
            assert(literals_of_text(s).len() > 0);
            assert(bits_at(x, 0) == bits_at(y, 0));
            if bits_at(x, 0) is Some && e < s.len() {
                assert(literals_of_text(s) =~= seq![v] + literals_of_text(rest));
                assert forall|i: int| 0 <= i < literals_of_text(rest).len() implies bits_at(
                    x.drop_first(),
                    i,
                ) == bits_at(y.drop_first(), i) by {
                    assert(bits_at(x, i + 1) == bits_at(y, i + 1));
                }
                lemma_fields_need_their_literals(rest, x.drop_first(), y.drop_first());
            }
        },
    }
}

/// What a text says depends on the bit patterns of its float literals
/// alone: of those that [`Tuple::float_literals`] lists.
pub proof fn lemma_text_needs_its_literals(b: Seq<u8>, x: Seq<Option<u32>>, y: Seq<Option<u32>>)
    requires
        forall|i: int|
            0 <= i < float_literals_of_text(b).len() ==> bits_at(x, i) == bits_at(y, i),
    ensures
        tuple_of_text(b, x) == tuple_of_text(b, y),
{
    if header_error(b) is None && fields_part(b) is Some {
        lemma_fields_need_their_literals(fields_part(b)->0, x, y);
    }
}

/// A text that is a tuple is a well-formed one.
pub proof fn lemma_tuple_of_text_wf(b: Seq<u8>, float_bits: Seq<Option<u32>>)
    requires
        valid_utf8(b),
        tuple_of_text(b, float_bits) is Ok,
    ensures
        tuple_of_text(b, float_bits)->Ok_0.wf(),
{
    let t = tuple_of_text(b, float_bits)->Ok_0;
    let inner = b.subrange(1, b.len() - 1);
    let e = index_of(inner, CHAR_COMMA);
    lemma_index_of(inner, CHAR_COMMA);
    let token = trim(inner.take(e));
    let name = name_of_text(b);
    lemma_trim_is_part(inner.take(e));
    let (lo, hi) = choose|lo: int, hi: int|
        0 <= lo <= hi <= inner.take(e).len() && token == inner.take(e).subrange(lo, hi);
    assert(name =~= b.subrange(1 + lo + 1, 1 + hi - 1));
    assert(b[1 + lo] == token[0]);
    assert(b[1 + hi - 1] == token.last());
    lemma_part_between_ascii_is_utf8(b, 1 + lo, 1 + hi - 1);
    decode_utf8_encode_utf8(name);
    assert(t.name_bytes() == name);
}

/// What `trim` leaves is a part of what it was given.
pub proof fn lemma_trim_is_part(s: Seq<u8>)
    ensures
        exists|lo: int, hi: int| 0 <= lo <= hi <= s.len() && trim(s) == s.subrange(lo, hi),
{
    lemma_trim_start_is_part(s);
    let lo = choose|lo: int| 0 <= lo <= s.len() && trim_start(s) == s.subrange(lo, s.len() as int);
    let m = trim_start(s);
    lemma_trim_end_is_part(m);
    let n = choose|n: int| 0 <= n <= m.len() && trim_end(m) == m.subrange(0, n);
    assert(trim(s) =~= s.subrange(lo, lo + n));
}

/// What `trim_start` leaves is an end of what it was given.
pub proof fn lemma_trim_start_is_part(s: Seq<u8>)
    ensures
        exists|lo: int| 0 <= lo <= s.len() && trim_start(s) == s.subrange(lo, s.len() as int),
    decreases s.len(),
{
    if s.len() > 0 && is_space(s[0]) {
        let tail = s.drop_first();
        lemma_trim_start_is_part(tail);
        let lo = choose|lo: int|
            0 <= lo <= tail.len() && trim_start(tail) == tail.subrange(lo, tail.len() as int);
        assert(trim_start(s) =~= s.subrange(lo + 1, s.len() as int));
    } else {
        assert(trim_start(s) =~= s.subrange(0, s.len() as int));
    }
}

/// What `trim_end` leaves is a beginning of what it was given.
pub proof fn lemma_trim_end_is_part(s: Seq<u8>)
    ensures
        exists|n: int| 0 <= n <= s.len() && trim_end(s) == s.subrange(0, n),
    decreases s.len(),
{
    if s.len() > 0 && is_space(s.last()) {
        let head = s.drop_last();
        lemma_trim_end_is_part(head);
        let n = choose|n: int| 0 <= n <= head.len() && trim_end(head) == head.subrange(0, n);
        assert(trim_end(s) =~= s.subrange(0, n));
    } else {
        assert(trim_end(s) =~= s.subrange(0, s.len() as int));
    }
}

/// In UTF-8 text, what stands between two ASCII characters is UTF-8 text.
pub proof fn lemma_part_between_ascii_is_utf8(b: Seq<u8>, q: int, hi: int)
    requires
        valid_utf8(b),
        0 <= q < hi < b.len(),
        b[q] < 128,
        b[hi] < 128,
    ensures
        valid_utf8(b.subrange(q + 1, hi)),
{
    is_char_boundary_iff_not_is_continuation_byte(b, q);
    valid_utf8_split(b, q);
    let tail = b.subrange(q, b.len() as int);
    assert(tail[0] == b[q]);
    assert(is_char_boundary(tail, 1)) by {
        reveal_with_fuel(is_char_boundary, 2);
    }
    valid_utf8_split(tail, 1);
    let rest = tail.subrange(1, tail.len() as int);
    assert(rest[hi - q - 1] == b[hi]);
    is_char_boundary_iff_not_is_continuation_byte(rest, hi - q - 1);
    valid_utf8_split(rest, hi - q - 1);
    assert(rest.subrange(0, hi - q - 1) =~= b.subrange(q + 1, hi));
}

} // verus!
