//! What the codecs share: checked slicing, the search for a byte, the trait
//! of the values with a binary form, and bytes shown in binary notation.

use core::ops::Range;
use vstd::prelude::*;
use vstd::string::StringExecFns;

verus! {

/// The index that a checked slicing operation found out of bounds.
#[derive(Clone, Copy, Debug, PartialEq, Eq, Structural)]
pub struct TakeIndexError(pub usize);

/// `core::convert::TryInto` from a slice to an array: the copy succeeds exactly
/// when the slice holds `N` items, and the array then holds the same items.
#[verifier::external_body]
fn array_from_slice<T: Copy, const N: usize>(items: &[T]) -> (r: Option<[T; N]>)
    ensures
        r is Some <==> items@.len() == N,
        r is Some ==> r->0@ == items@,
{
    items.try_into().ok()
}

/// The first `N` items of `collection` as an array, or the error that names
/// `N` when there are fewer.
pub fn take_first_n_const<T: Copy, const N: usize>(collection: &[T]) -> (r: Result<
    [T; N],
    TakeIndexError,
>)
    ensures
        collection@.len() >= N ==> r is Ok && r->Ok_0@ == collection@.subrange(0, N as int),
        collection@.len() < N ==> r == Err::<[T; N], TakeIndexError>(TakeIndexError(N)),
{
    if collection.len() >= N {
        let head = vstd::slice::slice_subrange(collection, 0, N);
        match array_from_slice::<T, N>(head) {
            Some(a) => Ok(a),
            None => Err(TakeIndexError(N)),
        }
    } else {
        Err(TakeIndexError(N))
    }
}

/// The items of `collection` at the positions of `range`.
///
/// A range that ends past the collection is refused with its end, and one
/// that ends before it starts with its start.
pub fn take_range<T>(collection: &[T], range: Range<usize>) -> (r: Result<&[T], TakeIndexError>)
    ensures
        range.end > collection@.len() ==> r == Err::<&[T], TakeIndexError>(
            TakeIndexError(range.end),
        ),
        range.end <= collection@.len() && range.end < range.start ==> r == Err::<
            &[T],
            TakeIndexError,
        >(TakeIndexError(range.start)),
        range.start <= range.end <= collection@.len() ==> r is Ok && r->Ok_0@
            == collection@.subrange(range.start as int, range.end as int),
{
    let hi = range.end;
    if hi > collection.len() {
        return Err(TakeIndexError(hi));
    }
    let lo = range.start;
    if hi < lo {
        return Err(TakeIndexError(lo));
    }
    Ok(vstd::slice::slice_subrange(collection, lo, hi))
}

/// A value with a binary form.
pub trait Serializable: Sized {
    /// Why bytes are refused.
    type Error;

    /// The binary form, as a function of the value.
    spec fn wire(&self) -> Seq<u8>;

    /// Writes the binary form.
    fn serialize(&self) -> (bytes: Vec<u8>)
        ensures
            bytes@ == self.wire(),
    ;

    /// Reads a value back from its binary form.
    fn deserialize(bytes: &[u8]) -> Result<Self, Self::Error>;
}

/// The position of the first `b` in `s`, or the length of `s` where it holds none.
pub open spec fn index_of(s: Seq<u8>, b: u8) -> int
    decreases s.len(),
{
    if s.len() == 0 || s[0] == b {
        0
    } else {
        1 + index_of(s.drop_first(), b)
    }
}

/// `index_of` is the first position that holds the byte, if any does.
pub proof fn lemma_index_of(s: Seq<u8>, b: u8)
    ensures
        0 <= index_of(s, b) <= s.len(),
        forall|i: int| 0 <= i < index_of(s, b) ==> s[i] != b,
        index_of(s, b) < s.len() ==> s[index_of(s, b)] == b,
    decreases s.len(),
{
    if s.len() == 0 || s[0] == b {
    } else {
        let tail = s.drop_first();
        lemma_index_of(tail, b);
        assert forall|i: int| 0 <= i < index_of(s, b) implies s[i] != b by {
            if i > 0 {
                assert(s[i] == tail[i - 1]);
            }
        }
        assert(index_of(tail, b) < tail.len() ==> s[index_of(s, b)] == tail[index_of(tail, b)]);
    }
}

/// The first `b` is at `z`, given that no earlier position holds one.
pub proof fn lemma_index_of_is(s: Seq<u8>, b: u8, z: int)
    requires
        0 <= z <= s.len(),
        forall|i: int| 0 <= i < z ==> s[i] != b,
        z < s.len() ==> s[z] == b,
    ensures
        index_of(s, b) == z,
{
    lemma_index_of(s, b);
    let e = index_of(s, b);
    if e < z {
        assert(s[e] != b);
    } else if z < e {
        assert(s[z] != b);
    }
}

/// The position of the first `b` among the bytes from `lo` to `hi`, or `hi`
/// where there is none.
pub fn find_byte(bytes: &[u8], lo: usize, hi: usize, b: u8) -> (r: usize)
    requires
        lo <= hi <= bytes@.len(),
    ensures
        lo <= r <= hi,
        r - lo == index_of(bytes@.subrange(lo as int, hi as int), b),
{
    let mut r: usize = lo;
    while r < hi && bytes[r] != b
        invariant
            lo <= r <= hi <= bytes@.len(),
            forall|i: int| lo <= i < r ==> bytes@[i] != b,
        decreases hi - r,
    {
        r += 1;
    }
    proof {
        let part = bytes@.subrange(lo as int, hi as int);
        assert forall|i: int| 0 <= i < r - lo implies part[i] != b by {
            assert(part[i] == bytes@[lo + i]);
        }
        lemma_index_of_is(part, b, r - lo);
    }
    r
}

/// The character of the decimal digit `d`.
pub open spec fn digit_char(d: int) -> char {
    if d == 0 {
        '0'
    } else if d == 1 {
        '1'
    } else if d == 2 {
        '2'
    } else if d == 3 {
        '3'
    } else if d == 4 {
        '4'
    } else if d == 5 {
        '5'
    } else if d == 6 {
        '6'
    } else if d == 7 {
        '7'
    } else if d == 8 {
        '8'
    } else {
        '9'
    }
}

/// The decimal notation of `n`.
pub open spec fn decimal_text(n: nat) -> Seq<char>
    decreases n,
{
    if n < 10 {
        seq![digit_char(n as int)]
    } else {
        decimal_text(n / 10).push(digit_char((n % 10) as int))
    }
}

/// The eight binary digits of `b`, the most significant first.
pub open spec fn binary_text(b: u8) -> Seq<char> {
    seq![
        digit_char((b / 128 % 2) as int),
        digit_char((b / 64 % 2) as int),
        digit_char((b / 32 % 2) as int),
        digit_char((b / 16 % 2) as int),
        digit_char((b / 8 % 2) as int),
        digit_char((b / 4 % 2) as int),
        digit_char((b / 2 % 2) as int),
        digit_char((b % 2) as int),
    ]
}

/// Appends the decimal digit `d` to `text`.
fn append_digit(text: &mut String, d: usize)
    requires
        d < 10,
    ensures
        final(text)@ == old(text)@.push(digit_char(d as int)),
{
    proof {
        reveal_strlit("0");
        reveal_strlit("1");
        reveal_strlit("2");
        reveal_strlit("3");
        reveal_strlit("4");
        reveal_strlit("5");
        reveal_strlit("6");
        reveal_strlit("7");
        reveal_strlit("8");
        reveal_strlit("9");
    }
    let digit = if d == 0 {
        "0"
    } else if d == 1 {
        "1"
    } else if d == 2 {
        "2"
    } else if d == 3 {
        "3"
    } else if d == 4 {
        "4"
    } else if d == 5 {
        "5"
    } else if d == 6 {
        "6"
    } else if d == 7 {
        "7"
    } else if d == 8 {
        "8"
    } else {
        "9"
    };
    text.append(digit);
    assert(text@ =~= old(text)@.push(digit_char(d as int)));
}

/// Appends the decimal notation of `n` to `text`.
pub fn append_decimal(text: &mut String, n: usize)
    ensures
        final(text)@ == old(text)@ + decimal_text(n as nat),
    decreases n,
{
    if n >= 10 {
        append_decimal(text, n / 10);
    }
    append_digit(text, n % 10);
    assert(text@ =~= old(text)@ + decimal_text(n as nat));
}

/// The eight binary digits of `b`, the most significant first.
pub fn binary_string(b: u8) -> (text: String)
    ensures
        text@ == binary_text(b),
{
    let mut text = String::new();
    let n = b as usize;
    append_digit(&mut text, n / 128 % 2);
    append_digit(&mut text, n / 64 % 2);
    append_digit(&mut text, n / 32 % 2);
    append_digit(&mut text, n / 16 % 2);
    append_digit(&mut text, n / 8 % 2);
    append_digit(&mut text, n / 4 % 2);
    append_digit(&mut text, n / 2 % 2);
    append_digit(&mut text, n % 2);
    assert(text@ =~= binary_text(b));
    text
}

impl TakeIndexError {
    /// What the error says, in words.
    pub open spec fn message_text(self) -> Seq<char> {
        "TakeIndexError: The provided index "@ + decimal_text(self.0 as nat)
            + " is outside of the bounds of the provided collection."@
    }

    /// What the error says, in words.
    pub fn message(&self) -> (text: String)
        ensures
            text@ == self.message_text(),
    {
        let mut text = String::from_str("TakeIndexError: The provided index ");
        append_decimal(&mut text, self.0);
        text.append(" is outside of the bounds of the provided collection.");
        text
    }
}

/// Bytes that can be shown in binary notation.
pub trait DisplayBinary {
    /// The bytes that are shown.
    spec fn shown(&self) -> Seq<u8>;

    /// The binary notation of each byte: eight digits, the most
    /// significant first.
    fn display_bin(&self) -> (texts: Vec<String>)
        ensures
            texts@.len() == self.shown().len(),
            forall|i: int|
                0 <= i < texts@.len() ==> (#[trigger] texts@[i])@ == binary_text(self.shown()[i]),
    ;
}

/// The binary notation of each of `bytes`.
pub fn binary_strings(bytes: &[u8]) -> (texts: Vec<String>)
    ensures
        texts@.len() == bytes@.len(),
        forall|i: int| 0 <= i < texts@.len() ==> (#[trigger] texts@[i])@ == binary_text(bytes@[i]),
{
    let mut texts: Vec<String> = Vec::new();
    let mut i: usize = 0;
    while i < bytes.len()
        invariant
            i <= bytes@.len(),
            texts@.len() == i,
            forall|k: int| 0 <= k < i ==> (#[trigger] texts@[k])@ == binary_text(bytes@[k]),
        decreases bytes@.len() - i,
    {
        texts.push(binary_string(bytes[i]));
        i += 1;
    }
    texts
}

impl DisplayBinary for Vec<u8> {
    open spec fn shown(&self) -> Seq<u8> {
        self@
    }

    fn display_bin(&self) -> (texts: Vec<String>) {
        binary_strings(self.as_slice())
    }
}

/// A borrowed byte string, for showing.
pub struct SliceU8<'a>(pub &'a [u8]);

/// An owned byte string, for showing.
pub struct VecU8(pub Vec<u8>);

impl<'a> From<&'a [u8]> for SliceU8<'a> {
    fn from(value: &'a [u8]) -> (r: Self) {
        Self(value)
    }
}

impl<'a> vstd::std_specs::convert::FromSpecImpl<&'a [u8]> for SliceU8<'a> {
    open spec fn obeys_from_spec() -> bool {
        true
    }

    open spec fn from_spec(value: &'a [u8]) -> Self {
        SliceU8(value)
    }
}

impl From<Vec<u8>> for VecU8 {
    fn from(value: Vec<u8>) -> (r: Self) {
        Self(value)
    }
}

impl vstd::std_specs::convert::FromSpecImpl<Vec<u8>> for VecU8 {
    open spec fn obeys_from_spec() -> bool {
        true
    }

    open spec fn from_spec(value: Vec<u8>) -> Self {
        VecU8(value)
    }
}

impl<'a> DisplayBinary for SliceU8<'a> {
    open spec fn shown(&self) -> Seq<u8> {
        self.0@
    }

    fn display_bin(&self) -> (texts: Vec<String>) {
        binary_strings(self.0)
    }
}

impl DisplayBinary for VecU8 {
    open spec fn shown(&self) -> Seq<u8> {
        self.0@
    }

    fn display_bin(&self) -> (texts: Vec<String>) {
        binary_strings(self.0.as_slice())
    }
}

} // verus!
