//! Fixed-width integers: the big-endian bytes of the value, with no prefix.
use vstd::prelude::*;

use crate::endian;
use crate::{ErrorKind, Sirius, SiriusError};

verus! {

/// Decoding `width` bytes as an unsigned integer: the value, or missing data.
pub open spec fn spec_fixed(data: Seq<u8>, width: nat) -> Result<(nat, int), ErrorKind> {
    if data.len() < width {
        Err(ErrorKind::NotEnoughData)
    } else {
        Ok((endian::be_value(data.take(width as int)), width as int))
    }
}

proof fn lemma_fixed_round_trip(v: nat, width: nat, rest: Seq<u8>)
    requires
        v < endian::pow256(width),
    ensures
        endian::be_bytes(v, width).len() == width,
        spec_fixed(endian::be_bytes(v, width) + rest, width) == Ok::<(nat, int), ErrorKind>(
            (v, width as int),
        ),
{
    endian::lemma_be_bytes_len(v, width);
    endian::lemma_be_round_trip(v, width);
    assert((endian::be_bytes(v, width) + rest).take(width as int) =~= endian::be_bytes(v, width));
}

proof fn lemma_fixed_truncated(v: nat, width: nat, k: int)
    requires
        0 <= k < endian::be_bytes(v, width).len(),
    ensures
        spec_fixed(endian::be_bytes(v, width).take(k), width) == Err::<(nat, int), ErrorKind>(
            ErrorKind::NotEnoughData,
        ),
{
    endian::lemma_be_bytes_len(v, width);
}

/// Appends the `width` low-order bytes of `v`, most significant first.
fn serialize_fixed(v: u128, width: usize, output: &mut Vec<u8>) -> (r: Result<usize, SiriusError>)
    ensures
        r == Ok::<usize, SiriusError>(width),
        endian::be_bytes(v as nat, width as nat).len() == width,
        final(output)@ == old(output)@ + endian::be_bytes(v as nat, width as nat),
{
    endian::push_be(output, v, width);
    proof {
        endian::lemma_be_bytes_len(v as nat, width as nat);
    }
    Ok(width)
}

/// Reads `width` bytes from the front of `data` as a big-endian unsigned integer.
pub(crate) fn deserialize_fixed(data: &[u8], width: usize) -> (r: Result<(u128, usize), SiriusError>)
    requires
        width <= 16,
    ensures
        match r {
            Ok((v, n)) => spec_fixed(data@, width as nat) == Ok::<(nat, int), ErrorKind>(
                (v as nat, n as int),
            ),
            Err(e) => spec_fixed(data@, width as nat) == Err::<(nat, int), ErrorKind>(e.kind()),
        },
        r matches Ok((v, _)) ==> v < endian::pow256(width as nat),
{
    if data.len() < width {
        Err(SiriusError::NotEnoughData)
    } else {
        let v = endian::read_be(data, width);
        proof {
            endian::lemma_be_value_bound(data@.take(width as int));
        }
        Ok((v, width))
    }
}

impl Sirius for u8 {
    open spec fn spec_serialize(&self) -> Seq<u8> {
        endian::be_bytes(*self as nat, 1)
    }

    open spec fn spec_encodable(&self) -> bool {
        true
    }

    open spec fn spec_deserialize(data: Seq<u8>) -> Result<(u8, int), ErrorKind> {
        match spec_fixed(data, 1) {
            Ok((v, n)) => Ok((v as u8, n)),
            Err(e) => Err(e),
        }
    }

    proof fn lemma_deserialize_len(data: Seq<u8>) {
    }

    proof fn lemma_round_trip(&self, rest: Seq<u8>) {
        endian::lemma_pow256_values();
        lemma_fixed_round_trip(*self as nat, 1, rest);
    }

    proof fn lemma_truncated(&self, k: int) {
        lemma_fixed_truncated(*self as nat, 1, k);
    }

    fn serialize(&self, output: &mut Vec<u8>) -> (r: Result<usize, SiriusError>) {
        serialize_fixed(*self as u128, 1, output)
    }

    fn deserialize(data: &[u8]) -> (r: Result<(u8, usize), SiriusError>) {
        proof {
            endian::lemma_pow256_values();
        }
        let (v, n) = deserialize_fixed(data, 1)?;
        Ok((v as u8, n))
    }
}

impl Sirius for u16 {
    open spec fn spec_serialize(&self) -> Seq<u8> {
        endian::be_bytes(*self as nat, 2)
    }

    open spec fn spec_encodable(&self) -> bool {
        true
    }

    open spec fn spec_deserialize(data: Seq<u8>) -> Result<(u16, int), ErrorKind> {
        match spec_fixed(data, 2) {
            Ok((v, n)) => Ok((v as u16, n)),
            Err(e) => Err(e),
        }
    }

    proof fn lemma_deserialize_len(data: Seq<u8>) {
    }

    proof fn lemma_round_trip(&self, rest: Seq<u8>) {
        endian::lemma_pow256_values();
        lemma_fixed_round_trip(*self as nat, 2, rest);
    }

    proof fn lemma_truncated(&self, k: int) {
        lemma_fixed_truncated(*self as nat, 2, k);
    }

    fn serialize(&self, output: &mut Vec<u8>) -> (r: Result<usize, SiriusError>) {
        serialize_fixed(*self as u128, 2, output)
    }

    fn deserialize(data: &[u8]) -> (r: Result<(u16, usize), SiriusError>) {
        proof {
            endian::lemma_pow256_values();
        }
        let (v, n) = deserialize_fixed(data, 2)?;
        Ok((v as u16, n))
    }
}

impl Sirius for u32 {
    open spec fn spec_serialize(&self) -> Seq<u8> {
        endian::be_bytes(*self as nat, 4)
    }

    open spec fn spec_encodable(&self) -> bool {
        true
    }

    open spec fn spec_deserialize(data: Seq<u8>) -> Result<(u32, int), ErrorKind> {
        match spec_fixed(data, 4) {
            Ok((v, n)) => Ok((v as u32, n)),
            Err(e) => Err(e),
        }
    }

    proof fn lemma_deserialize_len(data: Seq<u8>) {
    }

    proof fn lemma_round_trip(&self, rest: Seq<u8>) {
        endian::lemma_pow256_values();
        lemma_fixed_round_trip(*self as nat, 4, rest);
    }

    proof fn lemma_truncated(&self, k: int) {
        lemma_fixed_truncated(*self as nat, 4, k);
    }

    fn serialize(&self, output: &mut Vec<u8>) -> (r: Result<usize, SiriusError>) {
        serialize_fixed(*self as u128, 4, output)
    }

    fn deserialize(data: &[u8]) -> (r: Result<(u32, usize), SiriusError>) {
        proof {
            endian::lemma_pow256_values();
        }
        let (v, n) = deserialize_fixed(data, 4)?;
        Ok((v as u32, n))
    }
}

impl Sirius for u64 {
    open spec fn spec_serialize(&self) -> Seq<u8> {
        endian::be_bytes(*self as nat, 8)
    }

    open spec fn spec_encodable(&self) -> bool {
        true
    }

    open spec fn spec_deserialize(data: Seq<u8>) -> Result<(u64, int), ErrorKind> {
        match spec_fixed(data, 8) {
            Ok((v, n)) => Ok((v as u64, n)),
            Err(e) => Err(e),
        }
    }

    proof fn lemma_deserialize_len(data: Seq<u8>) {
    }

    proof fn lemma_round_trip(&self, rest: Seq<u8>) {
        endian::lemma_pow256_values();
        lemma_fixed_round_trip(*self as nat, 8, rest);
    }

    proof fn lemma_truncated(&self, k: int) {
        lemma_fixed_truncated(*self as nat, 8, k);
    }

    fn serialize(&self, output: &mut Vec<u8>) -> (r: Result<usize, SiriusError>) {
        serialize_fixed(*self as u128, 8, output)
    }

    fn deserialize(data: &[u8]) -> (r: Result<(u64, usize), SiriusError>) {
        proof {
            endian::lemma_pow256_values();
        }
        let (v, n) = deserialize_fixed(data, 8)?;
        Ok((v as u64, n))
    }
}

impl Sirius for u128 {
    open spec fn spec_serialize(&self) -> Seq<u8> {
        endian::be_bytes(*self as nat, 16)
    }

    open spec fn spec_encodable(&self) -> bool {
        true
    }

    open spec fn spec_deserialize(data: Seq<u8>) -> Result<(u128, int), ErrorKind> {
        match spec_fixed(data, 16) {
            Ok((v, n)) => Ok((v as u128, n)),
            Err(e) => Err(e),
        }
    }

    proof fn lemma_deserialize_len(data: Seq<u8>) {
    }

    proof fn lemma_round_trip(&self, rest: Seq<u8>) {
        endian::lemma_pow256_values();
        lemma_fixed_round_trip(*self as nat, 16, rest);
    }

    proof fn lemma_truncated(&self, k: int) {
        lemma_fixed_truncated(*self as nat, 16, k);
    }

    fn serialize(&self, output: &mut Vec<u8>) -> (r: Result<usize, SiriusError>) {
        serialize_fixed(*self as u128, 16, output)
    }

    fn deserialize(data: &[u8]) -> (r: Result<(u128, usize), SiriusError>) {
        proof {
            endian::lemma_pow256_values();
        }
        let (v, n) = deserialize_fixed(data, 16)?;
        Ok((v as u128, n))
    }
}

impl Sirius for i8 {
    open spec fn spec_serialize(&self) -> Seq<u8> {
        endian::be_bytes((*self as u8) as nat, 1)
    }

    open spec fn spec_encodable(&self) -> bool {
        true
    }

    open spec fn spec_deserialize(data: Seq<u8>) -> Result<(i8, int), ErrorKind> {
        match spec_fixed(data, 1) {
            Ok((v, n)) => Ok(((v as u8) as i8, n)),
            Err(e) => Err(e),
        }
    }

    proof fn lemma_deserialize_len(data: Seq<u8>) {
    }

    proof fn lemma_round_trip(&self, rest: Seq<u8>) {
        endian::lemma_pow256_values();
        let x = *self;
        assert(((x as u8) as i8) == x) by (bit_vector);
        lemma_fixed_round_trip((x as u8) as nat, 1, rest);
    }

    proof fn lemma_truncated(&self, k: int) {
        lemma_fixed_truncated((*self as u8) as nat, 1, k);
    }

    fn serialize(&self, output: &mut Vec<u8>) -> (r: Result<usize, SiriusError>) {
        let bits: u8 = #[verifier::truncate] (*self as u8);
        serialize_fixed(bits as u128, 1, output)
    }

    fn deserialize(data: &[u8]) -> (r: Result<(i8, usize), SiriusError>) {
        proof {
            endian::lemma_pow256_values();
        }
        let (v, n) = deserialize_fixed(data, 1)?;
        Ok((#[verifier::truncate] ((v as u8) as i8), n))
    }
}

impl Sirius for i16 {
    open spec fn spec_serialize(&self) -> Seq<u8> {
        endian::be_bytes((*self as u16) as nat, 2)
    }

    open spec fn spec_encodable(&self) -> bool {
        true
    }

    open spec fn spec_deserialize(data: Seq<u8>) -> Result<(i16, int), ErrorKind> {
        match spec_fixed(data, 2) {
            Ok((v, n)) => Ok(((v as u16) as i16, n)),
            Err(e) => Err(e),
        }
    }

    proof fn lemma_deserialize_len(data: Seq<u8>) {
    }

    proof fn lemma_round_trip(&self, rest: Seq<u8>) {
        endian::lemma_pow256_values();
        let x = *self;
        assert(((x as u16) as i16) == x) by (bit_vector);
        lemma_fixed_round_trip((x as u16) as nat, 2, rest);
    }

    proof fn lemma_truncated(&self, k: int) {
        lemma_fixed_truncated((*self as u16) as nat, 2, k);
    }

    fn serialize(&self, output: &mut Vec<u8>) -> (r: Result<usize, SiriusError>) {
        let bits: u16 = #[verifier::truncate] (*self as u16);
        serialize_fixed(bits as u128, 2, output)
    }

    fn deserialize(data: &[u8]) -> (r: Result<(i16, usize), SiriusError>) {
        proof {
            endian::lemma_pow256_values();
        }
        let (v, n) = deserialize_fixed(data, 2)?;
        Ok((#[verifier::truncate] ((v as u16) as i16), n))
    }
}

impl Sirius for i32 {
    open spec fn spec_serialize(&self) -> Seq<u8> {
        endian::be_bytes((*self as u32) as nat, 4)
    }

    open spec fn spec_encodable(&self) -> bool {
        true
    }

    open spec fn spec_deserialize(data: Seq<u8>) -> Result<(i32, int), ErrorKind> {
        match spec_fixed(data, 4) {
            Ok((v, n)) => Ok(((v as u32) as i32, n)),
            Err(e) => Err(e),
        }
    }

    proof fn lemma_deserialize_len(data: Seq<u8>) {
    }

    proof fn lemma_round_trip(&self, rest: Seq<u8>) {
        endian::lemma_pow256_values();
        let x = *self;
        assert(((x as u32) as i32) == x) by (bit_vector);
        lemma_fixed_round_trip((x as u32) as nat, 4, rest);
    }

    proof fn lemma_truncated(&self, k: int) {
        lemma_fixed_truncated((*self as u32) as nat, 4, k);
    }

    fn serialize(&self, output: &mut Vec<u8>) -> (r: Result<usize, SiriusError>) {
        let bits: u32 = #[verifier::truncate] (*self as u32);
        serialize_fixed(bits as u128, 4, output)
    }

    fn deserialize(data: &[u8]) -> (r: Result<(i32, usize), SiriusError>) {
        proof {
            endian::lemma_pow256_values();
        }
        let (v, n) = deserialize_fixed(data, 4)?;
        Ok((#[verifier::truncate] ((v as u32) as i32), n))
    }
}

impl Sirius for i64 {
    open spec fn spec_serialize(&self) -> Seq<u8> {
        endian::be_bytes((*self as u64) as nat, 8)
    }

    open spec fn spec_encodable(&self) -> bool {
        true
    }

    open spec fn spec_deserialize(data: Seq<u8>) -> Result<(i64, int), ErrorKind> {
        match spec_fixed(data, 8) {
            Ok((v, n)) => Ok(((v as u64) as i64, n)),
            Err(e) => Err(e),
        }
    }

    proof fn lemma_deserialize_len(data: Seq<u8>) {
    }

    proof fn lemma_round_trip(&self, rest: Seq<u8>) {
        endian::lemma_pow256_values();
        let x = *self;
        assert(((x as u64) as i64) == x) by (bit_vector);
        lemma_fixed_round_trip((x as u64) as nat, 8, rest);
    }

    proof fn lemma_truncated(&self, k: int) {
        lemma_fixed_truncated((*self as u64) as nat, 8, k);
    }

    fn serialize(&self, output: &mut Vec<u8>) -> (r: Result<usize, SiriusError>) {
        let bits: u64 = #[verifier::truncate] (*self as u64);
        serialize_fixed(bits as u128, 8, output)
    }

    fn deserialize(data: &[u8]) -> (r: Result<(i64, usize), SiriusError>) {
        proof {
            endian::lemma_pow256_values();
        }
        let (v, n) = deserialize_fixed(data, 8)?;
        Ok((#[verifier::truncate] ((v as u64) as i64), n))
    }
}

impl Sirius for i128 {
    open spec fn spec_serialize(&self) -> Seq<u8> {
        endian::be_bytes((*self as u128) as nat, 16)
    }

    open spec fn spec_encodable(&self) -> bool {
        true
    }

    open spec fn spec_deserialize(data: Seq<u8>) -> Result<(i128, int), ErrorKind> {
        match spec_fixed(data, 16) {
            Ok((v, n)) => Ok(((v as u128) as i128, n)),
            Err(e) => Err(e),
        }
    }

    proof fn lemma_deserialize_len(data: Seq<u8>) {
    }

    proof fn lemma_round_trip(&self, rest: Seq<u8>) {
        endian::lemma_pow256_values();
        let x = *self;
        assert(((x as u128) as i128) == x) by (bit_vector);
        lemma_fixed_round_trip((x as u128) as nat, 16, rest);
    }

    proof fn lemma_truncated(&self, k: int) {
        lemma_fixed_truncated((*self as u128) as nat, 16, k);
    }

    fn serialize(&self, output: &mut Vec<u8>) -> (r: Result<usize, SiriusError>) {
        let bits: u128 = #[verifier::truncate] (*self as u128);
        serialize_fixed(bits as u128, 16, output)
    }

    fn deserialize(data: &[u8]) -> (r: Result<(i128, usize), SiriusError>) {
        proof {
            endian::lemma_pow256_values();
        }
        let (v, n) = deserialize_fixed(data, 16)?;
        Ok((#[verifier::truncate] ((v as u128) as i128), n))
    }
}

/// A `usize` travels as 8 bytes whatever the machine's word size; a value that does not fit
/// the reader's `usize` is refused.
impl Sirius for usize {
    open spec fn spec_serialize(&self) -> Seq<u8> {
        endian::be_bytes(*self as nat, 8)
    }

    open spec fn spec_encodable(&self) -> bool {
        true
    }

    open spec fn spec_deserialize(data: Seq<u8>) -> Result<(usize, int), ErrorKind> {
        match spec_fixed(data, 8) {
            Err(e) => Err(e),
            Ok((v, n)) => if v <= usize::MAX {
                Ok((v as usize, n))
            } else {
                Err(ErrorKind::Parsing("usize"@))
            },
        }
    }

    proof fn lemma_deserialize_len(data: Seq<u8>) {
    }

    proof fn lemma_round_trip(&self, rest: Seq<u8>) {
        endian::lemma_pow256_values();
        lemma_fixed_round_trip(*self as nat, 8, rest);
    }

    proof fn lemma_truncated(&self, k: int) {
        lemma_fixed_truncated(*self as nat, 8, k);
    }

    fn serialize(&self, output: &mut Vec<u8>) -> (r: Result<usize, SiriusError>) {
        serialize_fixed(*self as u128, 8, output)
    }

    fn deserialize(data: &[u8]) -> (r: Result<(usize, usize), SiriusError>) {
        let (v, n) = deserialize_fixed(data, 8)?;
        if v <= usize::MAX as u128 {
            Ok((v as usize, n))
        } else {
            Err(SiriusError::ParsingError { ty_name: "usize", error: "value out of range".to_owned() })
        }
    }
}

/// An `isize` travels as the 8 bytes of its value as an `i64`, whatever the machine's word
/// size; a value that does not fit the reader's `isize` is refused.
impl Sirius for isize {
    open spec fn spec_serialize(&self) -> Seq<u8> {
        endian::be_bytes(((*self as i64) as u64) as nat, 8)
    }

    open spec fn spec_encodable(&self) -> bool {
        true
    }

    open spec fn spec_deserialize(data: Seq<u8>) -> Result<(isize, int), ErrorKind> {
        match spec_fixed(data, 8) {
            Err(e) => Err(e),
            Ok((v, n)) => {
                let x = (v as u64) as i64;
                if isize::MIN <= x <= isize::MAX {
                    Ok((x as isize, n))
                } else {
                    Err(ErrorKind::Parsing("isize"@))
                }
            },
        }
    }

    proof fn lemma_deserialize_len(data: Seq<u8>) {
    }

    proof fn lemma_round_trip(&self, rest: Seq<u8>) {
        endian::lemma_pow256_values();
        let x = *self as i64;
        assert(((x as u64) as i64) == x) by (bit_vector);
        lemma_fixed_round_trip((x as u64) as nat, 8, rest);
    }

    proof fn lemma_truncated(&self, k: int) {
        lemma_fixed_truncated(((*self as i64) as u64) as nat, 8, k);
    }

    fn serialize(&self, output: &mut Vec<u8>) -> (r: Result<usize, SiriusError>) {
        let wide = *self as i64;
        let bits: u64 = #[verifier::truncate] (wide as u64);
        serialize_fixed(bits as u128, 8, output)
    }

    fn deserialize(data: &[u8]) -> (r: Result<(isize, usize), SiriusError>) {
        proof {
            endian::lemma_pow256_values();
        }
        let (v, n) = deserialize_fixed(data, 8)?;
        let x: i64 = #[verifier::truncate] ((v as u64) as i64);
        if isize::MIN as i64 <= x && x <= isize::MAX as i64 {
            Ok((x as isize, n))
        } else {
            Err(SiriusError::ParsingError { ty_name: "isize", error: "value out of range".to_owned() })
        }
    }
}

} // verus!
