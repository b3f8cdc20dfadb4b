//! Text: strings as length-prefixed UTF-8, characters as 4-byte code points.
use vstd::prelude::*;
use vstd::string::*;
use vstd::utf8::*;

use crate::endian;
use crate::numbers;
use crate::prefix;
use crate::{ErrorKind, Sirius, SiriusError};

verus! {

/// Relies on `std::str::from_utf8`: it succeeds exactly on well-formed UTF-8, and the
/// string it gives back is made of the same bytes.
#[verifier::external_body]
fn str_from_utf8(bytes: &[u8]) -> (r: Option<&str>)
    ensures
        r is Some <==> valid_utf8(bytes@),
        r matches Some(s) ==> s.spec_bytes() == bytes@,
{
    std::str::from_utf8(bytes).ok()
}

/// Relies on `char::from_u32`: `Some` exactly for Unicode scalar values, holding that value.
#[verifier::external_body]
fn char_from_u32(v: u32) -> (r: Option<char>)
    ensures
        r is Some <==> is_scalar(v),
        r matches Some(c) ==> c as u32 == v,
{
    char::from_u32(v)
}

/// The digit of `d` (below 16) in upper-case hexadecimal.
pub open spec fn hex_digit(d: nat) -> char {
    if d < 10 {
        (('0' as nat) + d) as char
    } else {
        (('A' as nat) + d - 10) as char
    }
}

/// `n` in upper-case hexadecimal, without leading zeros.
pub open spec fn hex_upper(n: nat) -> Seq<char>
    decreases n,
{
    if n < 16 {
        seq![hex_digit(n)]
    } else {
        hex_upper(n / 16).push(hex_digit(n % 16))
    }
}

/// Relies on `format!` with `{:X}`, which writes a `u32` in upper-case hexadecimal.
#[verifier::external_body]
fn invalid_char_message(raw: u32) -> (r: String)
    ensures
        r@ == "invalid character: "@ + hex_upper(raw as nat),
{
    format!("invalid character: {raw:X}")
}

/// The string whose UTF-8 bytes are `payload`, if they are well-formed.
fn string_from_payload(payload: &[u8], _total: usize) -> (r: Option<String>)
    ensures
        r is Some <==> valid_utf8(payload@),
        r matches Some(s) ==> s@ == decode_utf8(payload@),
{
    match str_from_utf8(payload) {
        Some(s) => {
            proof {
                encode_utf8_decode_utf8(s@);
            }
            Some(s.to_owned())
        },
        None => None,
    }
}

impl Sirius for String {
    /// The UTF-8 bytes of the string behind their length prefix.
    open spec fn spec_serialize(&self) -> Seq<u8> {
        prefix::spec_length_prefixed(encode_utf8(self@))
    }

    open spec fn spec_encodable(&self) -> bool {
        prefix::fits_prefix(encode_utf8(self@).len() as int)
    }

    /// The payload must be well-formed UTF-8; that is checked once the whole payload is there.
    open spec fn spec_deserialize(data: Seq<u8>) -> Result<(Seq<char>, int), ErrorKind> {
        match prefix::spec_read_length_prefixed(data) {
            Err(e) => Err(e),
            Ok((payload, n)) => if valid_utf8(payload) {
                Ok((decode_utf8(payload), n))
            } else {
                Err(ErrorKind::Parsing("string"@))
            },
        }
    }

    proof fn lemma_deserialize_len(data: Seq<u8>) {
    }

    proof fn lemma_round_trip(&self, rest: Seq<u8>) {
        let payload = encode_utf8(self@);
        prefix::lemma_length_prefixed_round_trip(payload, rest);
        encode_utf8_valid_utf8(self@);
        encode_utf8_decode_utf8(self@);
    }

    proof fn lemma_truncated(&self, k: int) {
        prefix::lemma_length_prefixed_truncated(encode_utf8(self@), k);
    }

    fn serialize(&self, output: &mut Vec<u8>) -> (r: Result<usize, SiriusError>) {
        prefix::serialize_with_length_prefix(self.as_str().as_bytes(), output)
    }

    fn deserialize(data: &[u8]) -> (r: Result<(String, usize), SiriusError>) {
        let (decoded, n) = prefix::deserialize_with_length_prefix(data, string_from_payload)?;
        match decoded {
            Some(s) => Ok((s, n)),
            None => Err(
                SiriusError::ParsingError { ty_name: "string", error: "invalid UTF-8".to_owned() },
            ),
        }
    }
}

impl Sirius for char {
    /// The code point as 4 big-endian bytes.
    open spec fn spec_serialize(&self) -> Seq<u8> {
        endian::be_bytes((*self as u32) as nat, 4)
    }

    open spec fn spec_encodable(&self) -> bool {
        true
    }

    /// Four bytes whose value is not a Unicode scalar value are refused.
    open spec fn spec_deserialize(data: Seq<u8>) -> Result<(char, int), ErrorKind> {
        match numbers::spec_fixed(data, 4) {
            Err(e) => Err(e),
            Ok((v, n)) => if is_scalar(v as u32) {
                Ok(((v as u32) as char, n))
            } else {
                Err(ErrorKind::Parsing("char"@))
            },
        }
    }

    proof fn lemma_deserialize_len(data: Seq<u8>) {
    }

    proof fn lemma_round_trip(&self, rest: Seq<u8>) {
        let v = *self as u32;
        endian::lemma_pow256_values();
        endian::lemma_be_bytes_len(v as nat, 4);
        endian::lemma_be_round_trip(v as nat, 4);
        assert((self.spec_serialize() + rest).take(4) =~= self.spec_serialize());
        char_is_scalar(*self);
        char_u32_cast(*self, v);
    }

    proof fn lemma_truncated(&self, k: int) {
        endian::lemma_be_bytes_len((*self as u32) as nat, 4);
    }

    fn serialize(&self, output: &mut Vec<u8>) -> (r: Result<usize, SiriusError>) {
        (*self as u32).serialize(output)
    }

    fn deserialize(data: &[u8]) -> (r: Result<(char, usize), SiriusError>) {
        let (raw, n) = u32::deserialize(data)?;
        match char_from_u32(raw) {
            Some(c) => {
                proof {
                    char_u32_cast(c, raw);
                }
                Ok((c, n))
            },
            None => Err(SiriusError::ParsingError { ty_name: "char", error: invalid_char_message(raw) }),
        }
    }
}

} // verus!
