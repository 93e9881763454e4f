//! Object hashes and their hexadecimal text form.

use crate::text::{ascii_chars, lemma_ascii_text, text_of};
use hex::FromHexError;
use vstd::pervasive::unreached;
use vstd::prelude::*;

verus! {

/// Number of bytes in an object hash.
pub const HASH_BYTES: usize = 20;

/// Number of hexadecimal digits in the text form of an object hash.
pub const HASH_HEX_LEN: usize = 40;

/// Whether `b` is a hexadecimal digit with its letters, if any, in lower case.
pub open spec fn is_lower_hex_digit(b: u8) -> bool {
    ||| '0' as u8 <= b <= '9' as u8
    ||| 'a' as u8 <= b <= 'f' as u8
}

/// Whether `b` is a hexadecimal digit of either case.
pub open spec fn is_hex_digit(b: u8) -> bool {
    is_lower_hex_digit(b) || 'A' as u8 <= b <= 'F' as u8
}

/// The value of the hexadecimal digit `b`.
pub open spec fn hex_value(b: u8) -> int
    recommends
        is_hex_digit(b),
{
    if '0' as u8 <= b <= '9' as u8 {
        b - '0' as u8
    } else if 'a' as u8 <= b <= 'f' as u8 {
        b - 'a' as u8 + 10
    } else {
        b - 'A' as u8 + 10
    }
}

/// The lower-case hexadecimal digit of the value `v`.
pub open spec fn hex_digit(v: int) -> u8
    recommends
        0 <= v < 16,
{
    if v < 10 {
        ('0' as u8 + v) as u8
    } else {
        ('a' as u8 + v - 10) as u8
    }
}

/// Whether every byte of `text` is a hexadecimal digit.
pub open spec fn is_hex_text(text: Seq<u8>) -> bool {
    forall|i: int| 0 <= i < text.len() ==> is_hex_digit(#[trigger] text[i])
}

/// Whether every byte of `text` is a hexadecimal digit in lower case.
pub open spec fn is_lower_hex_text(text: Seq<u8>) -> bool {
    forall|i: int| 0 <= i < text.len() ==> is_lower_hex_digit(#[trigger] text[i])
}

/// The bytes that the hexadecimal text `text` stands for: two digits for each
/// byte, the more significant one first.
pub open spec fn hex_decode(text: Seq<u8>) -> Seq<u8>
    recommends
        text.len() % 2 == 0,
        is_hex_text(text),
{
    Seq::new(
        text.len() / 2,
        |i: int| (16 * hex_value(text[2 * i]) + hex_value(text[2 * i + 1])) as u8,
    )
}

/// The hexadecimal text of `bytes` in lower case: two digits for each byte,
/// the more significant one first.
pub open spec fn hex_encode(bytes: Seq<u8>) -> Seq<u8> {
    Seq::new(
        2 * bytes.len(),
        |i: int|
            if i % 2 == 0 {
                hex_digit(bytes[i / 2] as int / 16)
            } else {
                hex_digit(bytes[i / 2] as int % 16)
            },
    )
}

/// `hex::FromHexError`, which is passed on unread.
#[verifier::external_type_specification]
#[verifier::external_body]
pub struct ExFromHexError(FromHexError);

/// `hex::decode_to_slice`: succeeds exactly when `data` holds two hexadecimal
/// digits for each byte of `out`, and then has filled `out` with the bytes
/// that they stand for. Nothing is said of what `out` holds after a failure.
#[verifier::external_body]
fn decode_to_slice(data: &[u8], out: &mut [u8]) -> (r: Result<(), FromHexError>)
    ensures
        final(out)@.len() == old(out)@.len(),
        r is Ok <==> (data@.len() == 2 * old(out)@.len() && is_hex_text(data@)),
        r is Ok ==> final(out)@ == hex_decode(data@),
{
    hex::decode_to_slice(data, out)
}

/// `hex::encode_to_slice`: succeeds exactly when `output` has room for two
/// digits for each byte of `input`, and then has filled `output` with the
/// hexadecimal text of `input` in lower case. After a failure `output` is as
/// it was.
#[verifier::external_body]
fn encode_to_slice(input: &[u8], output: &mut [u8]) -> (r: Result<(), FromHexError>)
    requires
        2 * input@.len() <= usize::MAX,
    ensures
        final(output)@.len() == old(output)@.len(),
        r is Ok <==> old(output)@.len() == 2 * input@.len(),
        r is Ok ==> final(output)@ == hex_encode(input@),
        r is Err ==> final(output)@ == old(output)@,
{
    hex::encode_to_slice(input, output)
}

/// Why a text is not the hexadecimal form of an object hash.
#[derive(Clone, Copy, Debug, PartialEq, Eq)]
pub enum DecodeError {
    /// The text does not have exactly forty bytes.
    InvalidLength,
    /// The text has forty bytes, one of which is no hexadecimal digit.
    InvalidDigit,
}

/// The hash that the text `text` stands for, or why it stands for none.
pub open spec fn parse_hash(text: Seq<u8>) -> Result<Seq<u8>, DecodeError> {
    if text.len() != HASH_HEX_LEN {
        Err(DecodeError::InvalidLength)
    } else if !is_hex_text(text) {
        Err(DecodeError::InvalidDigit)
    } else {
        Ok(hex_decode(text))
    }
}

/// A git object hash: 160 bits.
#[derive(Clone, Copy, Debug, PartialEq, Eq)]
pub struct ObjectHash([u8; HASH_BYTES]);

impl View for ObjectHash {
    type V = Seq<u8>;

    /// The twenty bytes of the hash.
    closed spec fn view(&self) -> Seq<u8> {
        self.0@
    }
}

impl DeepView for ObjectHash {
    type V = Seq<u8>;

    open spec fn deep_view(&self) -> Seq<u8> {
        self@
    }
}

impl ObjectHash {
    /// Number of bits in a hash.
    pub const HASH_BITS: usize = 160;

    /// Number of bytes in a hash.
    pub const HASH_BYTES: usize = HASH_BYTES;

    /// Number of hexadecimal digits in the text form of a hash.
    pub const HASH_HEX_LEN: usize = HASH_HEX_LEN;

    /// A hash has twenty bytes.
    pub proof fn lemma_len(self)
        ensures
            self@.len() == HASH_BYTES,
    {
    }

    /// Reads a hash from its forty hexadecimal digits, of either case.
    pub fn from_hex(s: &[u8]) -> (r: Result<ObjectHash, DecodeError>)
        ensures
            parse_hash(s@) == match r {
                Ok(hash) => Ok(hash@),
                Err(error) => Err(error),
            },
    {
        if s.len() != HASH_HEX_LEN {
            return Err(DecodeError::InvalidLength);
        }
        let mut buf = [0u8; HASH_BYTES];
        match decode_to_slice(s, &mut buf) {
            Ok(()) => Ok(ObjectHash(buf)),
            Err(_) => Err(DecodeError::InvalidDigit),
        }
    }

    /// The bytes of the hash.
    pub fn as_bytes(&self) -> (r: &[u8; HASH_BYTES])
        ensures
            r@ == self@,
    {
        &self.0
    }

    /// Writes the hash as forty hexadecimal digits in lower case.
    pub fn to_hex_string(&self) -> (r: String)
        ensures
            r@ == ascii_chars(hex_encode(self@)),
    {
        let mut buf = [0u8; HASH_HEX_LEN];
        match encode_to_slice(&self.0, &mut buf) {
            Ok(()) => {},
            Err(_) => unreached(),
        }
        proof {
            lemma_hex_encode_is_hex_text(self@);
            lemma_ascii_text(buf@);
        }
        match text_of(&buf) {
            Some(text) => text.to_owned(),
            None => unreached(),
        }
    }
}

/// The hexadecimal text of any bytes is made of digits in lower case.
pub proof fn lemma_hex_encode_is_hex_text(bytes: Seq<u8>)
    ensures
        is_lower_hex_text(hex_encode(bytes)),
        is_hex_text(hex_encode(bytes)),
{
}

/// The hexadecimal text of a hash is read back as that hash.
pub proof fn lemma_decode_encode(hash: ObjectHash)
    ensures
        parse_hash(hex_encode(hash@)) == Ok::<Seq<u8>, DecodeError>(hash@),
{
    hash.lemma_len();
    lemma_hex_encode_is_hex_text(hash@);
    assert(hex_decode(hex_encode(hash@)) =~= hash@);
}

/// Forty hexadecimal digits in lower case are read as a hash, and that hash
/// is written as those forty digits.
pub proof fn lemma_encode_decode(text: Seq<u8>)
    requires
        text.len() == HASH_HEX_LEN,
        is_lower_hex_text(text),
    ensures
        parse_hash(text) is Ok,
        hex_encode(parse_hash(text)->Ok_0) == text,
        ascii_chars(hex_encode(parse_hash(text)->Ok_0)) == ascii_chars(text),
{
}

} // verus!
