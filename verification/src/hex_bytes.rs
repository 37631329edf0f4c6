//! Byte strings that are written as hex with a `0x` in front.

use vstd::prelude::*;
use vstd::slice::slice_subrange;
use vstd::string::{StringExecFns, StringSliceAdditionalSpecFns};

verus! {

/// The error of the hex crate's decoder; opaque to the verifier.
#[verifier::external_type_specification]
#[verifier::external_body]
pub struct ExFromHexError(hex::FromHexError);

/// A byte string, held as the `bytes::Bytes` of the bytes crate.
#[verifier::external_body]
#[derive(Debug, PartialEq, Eq, Hash, PartialOrd, Ord)]
pub struct Bytes(bytes::Bytes);

/// The bytes that a byte string holds.
pub uninterp spec fn bytes_of(b: Bytes) -> Seq<u8>;

/// The value of a hex digit, upper or lower case; none for any other byte.
pub open spec fn hex_value(c: u8) -> Option<u8> {
    if 0x30 <= c <= 0x39 {
        Some((c - 0x30) as u8)
    } else if 0x61 <= c <= 0x66 {
        Some((c - 0x61 + 10) as u8)
    } else if 0x41 <= c <= 0x46 {
        Some((c - 0x41 + 10) as u8)
    } else {
        None
    }
}

/// Whether `text` is hex: an even number of hex digits.
pub open spec fn is_hex(text: Seq<u8>) -> bool {
    text.len() % 2 == 0 && forall|i: int| 0 <= i < text.len() ==> hex_value(#[trigger] text[i]).is_some()
}

/// The bytes that the hex `text` stands for: two digits a byte, the high one first.
pub open spec fn unhex(text: Seq<u8>) -> Seq<u8> {
    Seq::new(
        text.len() / 2,
        |i: int| (hex_value(text[2 * i]).unwrap() * 16 + hex_value(text[2 * i + 1]).unwrap()) as u8,
    )
}

/// The lower-case hex digit of a value below sixteen.
pub open spec fn hex_digit(value: u8) -> char {
    if value < 10 {
        (0x30 + value) as char
    } else {
        (0x61 + value - 10) as char
    }
}

/// The hex text of `bytes`: two lower-case digits a byte, the high one first.
pub open spec fn to_hex(bytes: Seq<u8>) -> Seq<char> {
    Seq::new(
        2 * bytes.len(),
        |i: int|
            if i % 2 == 0 {
                hex_digit(bytes[i / 2] / 16)
            } else {
                hex_digit(bytes[i / 2] % 16)
            },
    )
}

/// What is left of `text` without a `0x` in front of it.
pub open spec fn without_prefix(text: Seq<u8>) -> Seq<u8> {
    if text.len() >= 2 && text[0] == 0x30 && text[1] == 0x78 {
        text.subrange(2, text.len() as int)
    } else {
        text
    }
}

/// Calls `bytes::Bytes::from`, which takes a vector over without changing
/// its bytes.
#[verifier::external_body]
fn bytes_from_vec(src: Vec<u8>) -> (r: Bytes)
    ensures
        bytes_of(r) == src@,
{
    Bytes(bytes::Bytes::from(src))
}

/// Calls `bytes::Bytes::copy_from_slice`, which copies the bytes of a slice.
#[verifier::external_body]
fn bytes_copy_from_slice(src: &[u8]) -> (r: Bytes)
    ensures
        bytes_of(r) == src@,
{
    Bytes(bytes::Bytes::copy_from_slice(src))
}

/// Calls `bytes::Bytes::as_ref`, which lends the bytes as a slice, and
/// copies them into a vector.
#[verifier::external_body]
fn bytes_to_vec(b: &Bytes) -> (r: Vec<u8>)
    ensures
        r@ == bytes_of(*b),
{
    b.0.as_ref().to_vec()
}

/// Calls `bytes::Bytes::len`, which gives the number of bytes.
#[verifier::external_body]
fn bytes_len(b: &Bytes) -> (r: usize)
    ensures
        r == bytes_of(*b).len(),
{
    b.0.len()
}

/// Calls `bytes::Bytes::clone`, which gives a second handle on the same bytes.
#[verifier::external_body]
fn bytes_clone(b: &Bytes) -> (r: Bytes)
    ensures
        bytes_of(r) == bytes_of(*b),
{
    Bytes(b.0.clone())
}

/// Calls `hex::encode`, which writes each byte as two lower-case hex
/// digits, the high one first.
#[verifier::external_body]
fn hex_encode(data: &[u8]) -> (r: String)
    ensures
        r@ == to_hex(data@),
{
    hex::encode(data)
}

/// Calls `hex::decode`, which reads two hex digits of either case as one
/// byte, the high one first, and fails on an odd number of bytes and on
/// any byte that is no hex digit.
#[verifier::external_body]
fn hex_decode(data: &[u8]) -> (r: Result<Vec<u8>, hex::FromHexError>)
    ensures
        match r {
            Ok(bytes) => is_hex(data@) && bytes@ == unhex(data@),
            Err(_) => !is_hex(data@),
        },
{
    hex::decode(data)
}

/// Why a text is no byte string.
#[derive(Debug)]
pub struct ParseBytesError(String);

impl ParseBytesError {
    /// What went wrong, as the parser put it.
    pub closed spec fn reason(&self) -> Seq<char> {
        self.0@
    }

    /// The error as a line of text: the fixed words, then the reason.
    pub fn message(&self) -> (r: String)
        ensures
            r@ == "Failed to parse bytes: "@ + self.reason(),
    {
        let mut text = String::from_str("Failed to parse bytes: ");
        text.append(self.0.as_str());
        text
    }
}

impl Clone for Bytes {
    /// A second handle on the same bytes.
    fn clone(&self) -> (r: Bytes)
        ensures
            r@ == self@,
    {
        bytes_clone(self)
    }
}

impl Default for Bytes {
    /// The empty byte string.
    fn default() -> (r: Bytes)
        ensures
            r@.len() == 0,
    {
        bytes_from_vec(Vec::new())
    }
}

impl View for Bytes {
    type V = Seq<u8>;

    open spec fn view(&self) -> Seq<u8> {
        bytes_of(*self)
    }
}

impl Bytes {
    /// The byte string that holds the bytes of `src`.
    pub fn from_vec(src: Vec<u8>) -> (r: Bytes)
        ensures
            r@ == src@,
    {
        bytes_from_vec(src)
    }

    /// The byte string that holds a copy of the bytes of `src`.
    pub fn from_slice(src: &[u8]) -> (r: Bytes)
        ensures
            r@ == src@,
    {
        bytes_copy_from_slice(src)
    }

    /// The bytes as a vector.
    pub fn to_vec(&self) -> (r: Vec<u8>)
        ensures
            r@ == self@,
    {
        bytes_to_vec(self)
    }

    /// The number of bytes.
    pub fn len(&self) -> (r: usize)
        ensures
            r == self@.len(),
    {
        bytes_len(self)
    }

    /// Whether there are no bytes.
    pub fn is_empty(&self) -> (r: bool)
        ensures
            r == (self@.len() == 0),
    {
        bytes_len(self) == 0
    }

    /// Whether the bytes are those of `other`.
    pub fn eq_slice(&self, other: &[u8]) -> (r: bool)
        ensures
            r == (self@ == other@),
    {
        let own = bytes_to_vec(self);
        if own.len() != other.len() {
            return false;
        }
        let mut i: usize = 0;
        while i < own.len()
            invariant
                i <= own@.len(),
                own@ == self@,
                own@.len() == other@.len(),
                forall|k: int| 0 <= k < i ==> own@[k] == other@[k],
            decreases own@.len() - i,
        {
            if own[i] != other[i] {
                return false;
            }
            i += 1;
        }
        assert(own@ =~= other@);
        true
    }

    /// Whether the bytes are those of `other`.
    pub fn eq_vec(&self, other: &Vec<u8>) -> (r: bool)
        ensures
            r == (self@ == other@),
    {
        self.eq_slice(other.as_slice())
    }

    /// The bytes as hex, two lower-case digits a byte.
    pub fn bytes_to_hex(&self) -> (r: String)
        ensures
            r@ == to_hex(self@),
    {
        let own = bytes_to_vec(self);
        hex_encode(own.as_slice())
    }

    /// The byte string as it is displayed: `0x`, then the bytes as hex.
    pub fn to_hex_string(&self) -> (r: String)
        ensures
            r@ == "0x"@ + to_hex(self@),
    {
        let mut text = String::from_str("0x");
        let digits = self.bytes_to_hex();
        text.append(digits.as_str());
        text
    }

    /// The byte string as it is shown when debugging: `Bytes(0x`, the bytes
    /// as hex, and `)`.
    pub fn debug_string(&self) -> (r: String)
        ensures
            r@ == "Bytes(0x"@ + to_hex(self@) + ")"@,
    {
        let mut text = String::from_str("Bytes(0x");
        let digits = self.bytes_to_hex();
        text.append(digits.as_str());
        text.append(")");
        text
    }

    /// Reads a byte string from hex, with or without a `0x` in front. It
    /// succeeds exactly on an even number of hex digits, of either case.
    pub fn from_str(value: &str) -> (r: Result<Bytes, ParseBytesError>)
        ensures
            match r {
                Ok(bytes) => is_hex(without_prefix(value.spec_bytes())) && bytes@ == unhex(
                    without_prefix(value.spec_bytes()),
                ),
                Err(e) => !is_hex(without_prefix(value.spec_bytes())) && e.reason().len() >= 13
                    && e.reason().subrange(0, 13) == "Invalid hex: "@,
            },
    {
        let text = value.as_bytes();
        let digits = if text.len() >= 2 && text[0] == 0x30 && text[1] == 0x78 {
            slice_subrange(text, 2, text.len())
        } else {
            text
        };
        match hex_decode(digits) {
            Ok(bytes) => Ok(Bytes::from_vec(bytes)),
            Err(e) => {
                let mut text = String::from_str("Invalid hex: ");
                let detail = e.to_string();
                text.append(detail.as_str());
                proof {
                    reveal_strlit("Invalid hex: ");
                    assert(text@.subrange(0, 13) =~= "Invalid hex: "@);
                }
                Err(ParseBytesError(text))
            },
        }
    }

    /// Appends the bytes to `buf` and returns their number.
    pub fn to_compact(self, buf: &mut Vec<u8>) -> (r: usize)
        ensures
            r == self@.len(),
            final(buf)@ == old(buf)@ + self@,
    {
        let own = bytes_to_vec(&self);
        let len: usize = own.len();
        buf.extend_from_slice(own.as_slice());
        len
    }

    /// Reads the first `len` bytes of `buf` as a byte string and returns it
    /// with what is left of `buf`.
    pub fn from_compact(buf: &[u8], len: usize) -> (r: (Bytes, &[u8]))
        requires
            len <= buf@.len(),
        ensures
            r.0@ == buf@.subrange(0, len as int),
            r.1@ == buf@.subrange(len as int, buf@.len() as int),
    {
        let head = slice_subrange(buf, 0, len);
        let rest = slice_subrange(buf, len, buf.len());
        (Bytes::from_slice(head), rest)
    }
}

/// Writing a byte string behind any bytes and reading as many bytes back
/// from where it was written gives the same bytes and leaves over what follows.
pub proof fn lemma_compact_round_trip(before: Seq<u8>, bytes: Seq<u8>, after: Seq<u8>)
    ensures
        (before + bytes + after).subrange(before.len() as int,
            (before + bytes + after).len() as int).subrange(
            0,
            bytes.len() as int,
        ) == bytes,
        (before + bytes + after).subrange(before.len() as int,
            (before + bytes + after).len() as int).subrange(
            bytes.len() as int,
            (bytes + after).len() as int,
        ) == after,
{
    let whole = before + bytes + after;
    let tail = whole.subrange(before.len() as int, whole.len() as int);
    assert(tail =~= bytes + after);
    assert(tail.subrange(0, bytes.len() as int) =~= bytes);
    assert(tail.subrange(bytes.len() as int, (bytes + after).len() as int) =~= after);
}

} // verus!
