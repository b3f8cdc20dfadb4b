//! A compact, big-endian binary codec for structured data.
//!
//! Every type that implements [`Sirius`] writes itself into a byte sink and reads itself
//! back from a byte slice. Primitives carry no tag; variable-length values carry a 4-byte
//! length prefix; tagged unions carry a 1-byte variant index. The contracts state each
//! wire format as a spec function, and the trait's proof functions state the laws that
//! every codec keeps: decoding an encoding gives the value back, and decoding a cut-off
//! encoding reports missing data.
use vstd::prelude::*;

pub mod composite;
pub mod endian;
pub mod numbers;
pub mod prefix;
pub mod sequence;
pub mod text;

pub use composite::{deserialize_field, deserialize_variant};
pub use prefix::{deserialize_with_length_prefix, serialize_with_length_prefix};

verus! {

/// The type that stores the length of a variable-length payload.
pub type LengthPrefix = u32;

/// Number of bytes taken by a length prefix.
pub const LENGTH_BYTES: usize = 4;

/// Declares `std::io::Error` so that `SiriusError` can carry one; nothing is assumed of
/// what it holds.
#[verifier::external_type_specification]
#[verifier::external_body]
pub struct ExIoError(std::io::Error);

/// The kind of a failure, as the contracts speak of it.
pub enum ErrorKind {
    NotEnoughData,
    Overflow,
    /// The bytes are present but do not form a value of the named type.
    Parsing(Seq<char>),
    Io,
}

/// Every failure a codec reports.
#[derive(Debug)]
pub enum SiriusError {
    /// The input ended before the value did.
    NotEnoughData,
    /// A length does not fit the length prefix.
    Overflow,
    /// The bytes are present but invalid for the type `ty_name`.
    ParsingError { ty_name: &'static str, error: String },
    /// A writer refused a write. The library's own sink, a `Vec<u8>`, never does; the
    /// variant is for code that passes the encoding on to an I/O writer.
    IoError(std::io::Error),
}

impl SiriusError {
    /// The kind of this failure; a parsing failure keeps the name of its type.
    pub open spec fn kind(&self) -> ErrorKind {
        match self {
            SiriusError::NotEnoughData => ErrorKind::NotEnoughData,
            SiriusError::Overflow => ErrorKind::Overflow,
            SiriusError::ParsingError { ty_name, .. } => ErrorKind::Parsing(ty_name@),
            SiriusError::IoError(_) => ErrorKind::Io,
        }
    }
}

/// A type with a binary encoding.
///
/// The encoding of a value is `spec_serialize`, used when `spec_encodable` holds (no length
/// inside the value reaches `LengthPrefix::MAX`). Decoding is `spec_deserialize`: the
/// decoded value, seen through its deep view, with the number of bytes it took, or the
/// kind of failure.
pub trait Sirius: Sized + DeepView {
    /// The bytes that encode `self`.
    spec fn spec_serialize(&self) -> Seq<u8>;

    /// Whether `self` can be encoded: no length inside it reaches `LengthPrefix::MAX`.
    spec fn spec_encodable(&self) -> bool;

    /// What decoding `data` gives: the value and the bytes it took, or the failure.
    spec fn spec_deserialize(data: Seq<u8>) -> Result<(Self::V, int), ErrorKind>;

    /// A successful decode takes no more bytes than it was given.
    proof fn lemma_deserialize_len(data: Seq<u8>)
        ensures
            Self::spec_deserialize(data) matches Ok((_, n)) ==> 0 <= n <= data.len(),
    ;

    /// Decoding an encoding, whatever follows it, gives the value back and takes exactly
    /// the encoding's bytes.
    proof fn lemma_round_trip(&self, rest: Seq<u8>)
        requires
            self.spec_encodable(),
        ensures
            Self::spec_deserialize(self.spec_serialize() + rest) == Ok::<(Self::V, int), ErrorKind>(
                (self.deep_view(), self.spec_serialize().len() as int),
            ),
    ;

    /// Decoding a strict prefix of an encoding reports missing data.
    proof fn lemma_truncated(&self, k: int)
        requires
            self.spec_encodable(),
            0 <= k < self.spec_serialize().len(),
        ensures
            Self::spec_deserialize(self.spec_serialize().take(k)) == Err::<(Self::V, int), ErrorKind>(
                ErrorKind::NotEnoughData,
            ),
    ;

    /// Appends the encoding of `self` to `output` and returns the number of bytes written.
    /// On failure `output` is left as it was.
    fn serialize(&self, output: &mut Vec<u8>) -> (r: Result<usize, SiriusError>)
        ensures
            match r {
                Ok(n) => {
                    &&& self.spec_encodable()
                    &&& n == self.spec_serialize().len()
                    &&& final(output)@ == old(output)@ + self.spec_serialize()
                },
                Err(e) => {
                    &&& !self.spec_encodable()
                    &&& e is Overflow
                    &&& final(output)@ == old(output)@
                },
            },
    ;

    /// Decodes a value from the front of `data`, returning it with the number of bytes read.
    fn deserialize(data: &[u8]) -> (r: Result<(Self, usize), SiriusError>)
        ensures
            match r {
                Ok((v, n)) => Self::spec_deserialize(data@) == Ok::<(Self::V, int), ErrorKind>(
                    (v.deep_view(), n as int),
                ),
                Err(e) => Self::spec_deserialize(data@) == Err::<(Self::V, int), ErrorKind>(
                    e.kind(),
                ),
            },
    ;

    /// The encoding of `self` in a new buffer; empty when `self` cannot be encoded.
    fn serialize_buffered(&self) -> (r: Vec<u8>)
        ensures
            r@ == (if self.spec_encodable() {
                self.spec_serialize()
            } else {
                Seq::<u8>::empty()
            }),
    {
        let mut data: Vec<u8> = Vec::new();
        let _ = self.serialize(&mut data);
        data
    }
}

/// Decoding the encoding of `v` gives `v` back and takes every byte of the encoding.
pub proof fn lemma_decode_encoding<T: Sirius>(v: &T)
    requires
        v.spec_encodable(),
    ensures
        T::spec_deserialize(v.spec_serialize()) == Ok::<(T::V, int), ErrorKind>(
            (v.deep_view(), v.spec_serialize().len() as int),
        ),
{
    v.lemma_round_trip(Seq::empty());
    assert(v.spec_serialize() + Seq::<u8>::empty() =~= v.spec_serialize());
}

} // verus!
