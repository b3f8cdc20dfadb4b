//! Composite values: records (tuples, one field after another), tagged unions (a 1-byte
//! variant index, then the variant's fields) and boxes (the boxed value alone).
//!
//! A record type of one's own encodes its fields in declaration order, each with its own
//! codec and nothing between them, and decodes them with [`deserialize_field`], which
//! carries the offset from one field to the next. A tagged union writes the zero-based
//! index of its variant as a `u8`, then the variant's fields as a record would; it reads
//! the index with [`deserialize_variant`].
use vstd::prelude::*;

use crate::{ErrorKind, Sirius, SiriusError};

verus! {

/// `n` in decimal, without leading zeros.
pub open spec fn decimal(n: nat) -> Seq<char>
    decreases n,
{
    if n < 10 {
        seq![(('0' as nat) + n) as char]
    } else {
        decimal(n / 10).push((('0' as nat) + n % 10) as char)
    }
}

/// The message of a refused variant index.
pub open spec fn invalid_variant_text(index: u8) -> Seq<char> {
    "invalid variant index: "@ + decimal(index as nat)
}

/// Relies on `format!` with `{}`, which writes a `u8` in decimal.
#[verifier::external_body]
fn invalid_variant_message(index: u8) -> (r: String)
    ensures
        r@ == invalid_variant_text(index),
{
    format!("invalid variant index: {}", index)
}

/// Reading the variant index of a union with `variant_count` variants named `ty_name`:
/// the index and the one byte it takes, missing data, or a refused index.
pub open spec fn spec_variant(data: Seq<u8>, variant_count: nat, ty_name: Seq<char>) -> Result<
    (u8, int),
    ErrorKind,
> {
    if data.len() == 0 {
        Err(ErrorKind::NotEnoughData)
    } else if data[0] < variant_count {
        Ok((data[0], 1))
    } else {
        Err(ErrorKind::Parsing(ty_name))
    }
}

/// Reads the variant index at the front of `data` for a tagged union named `ty_name` with
/// `variant_count` variants. An index with no variant is refused with a `ParsingError` that
/// names the union and the index.
pub fn deserialize_variant(data: &[u8], variant_count: usize, ty_name: &'static str) -> (r: Result<
    (u8, usize),
    SiriusError,
>)
    ensures
        data@.len() == 0 ==> r matches Err(SiriusError::NotEnoughData),
        data@.len() > 0 && data@[0] < variant_count ==> r == Ok::<(u8, usize), SiriusError>(
            (data@[0], 1),
        ),
        data@.len() > 0 && data@[0] >= variant_count ==> (r matches Err(
            SiriusError::ParsingError { ty_name: name, error: message },
        ) && name == ty_name && message@ == invalid_variant_text(data@[0])),
        match r {
            Ok((i, n)) => spec_variant(data@, variant_count as nat, ty_name@) == Ok::<
                (u8, int),
                ErrorKind,
            >((i, n as int)),
            Err(e) => spec_variant(data@, variant_count as nat, ty_name@) == Err::<
                (u8, int),
                ErrorKind,
            >(e.kind()),
        },
{
    let (index, n) = u8::deserialize(data)?;
    proof {
        crate::endian::lemma_pow256_values();
        reveal_with_fuel(crate::endian::be_value, 2);
    }
    if (index as usize) < variant_count {
        Ok((index, n))
    } else {
        Err(SiriusError::ParsingError { ty_name, error: invalid_variant_message(index) })
    }
}

/// Decodes a `T` from `data` at `offset`, returning it with the offset just past it.
/// An offset beyond the end of `data` is missing data.
pub fn deserialize_field<T: Sirius>(data: &[u8], offset: usize) -> (r: Result<(T, usize), SiriusError>)
    ensures
        offset > data@.len() ==> r matches Err(SiriusError::NotEnoughData),
        offset <= data@.len() ==> match r {
            Ok((v, end)) => T::spec_deserialize(data@.skip(offset as int)) == Ok::<
                (T::V, int),
                ErrorKind,
            >((v.deep_view(), end - offset)) && offset <= end <= data@.len(),
            Err(e) => T::spec_deserialize(data@.skip(offset as int)) == Err::<(T::V, int), ErrorKind>(
                e.kind(),
            ),
        },
{
    if offset > data.len() {
        return Err(SiriusError::NotEnoughData);
    }
    let rest = &data[offset..data.len()];
    assert(rest@ =~= data@.skip(offset as int));
    let (v, n) = T::deserialize(rest)?;
    proof {
        T::lemma_deserialize_len(rest@);
    }
    Ok((v, offset + n))
}

impl<T: Sirius> Sirius for Box<T> {
    /// The boxed value's encoding, with nothing added.
    open spec fn spec_serialize(&self) -> Seq<u8> {
        (**self).spec_serialize()
    }

    open spec fn spec_encodable(&self) -> bool {
        (**self).spec_encodable()
    }

    open spec fn spec_deserialize(data: Seq<u8>) -> Result<(T::V, int), ErrorKind> {
        T::spec_deserialize(data)
    }

    proof fn lemma_deserialize_len(data: Seq<u8>) {
        T::lemma_deserialize_len(data);
    }

    proof fn lemma_round_trip(&self, rest: Seq<u8>) {
        (**self).lemma_round_trip(rest);
    }

    proof fn lemma_truncated(&self, k: int) {
        (**self).lemma_truncated(k);
    }

    fn serialize(&self, output: &mut Vec<u8>) -> (r: Result<usize, SiriusError>) {
        (**self).serialize(output)
    }

    fn deserialize(data: &[u8]) -> (r: Result<(Box<T>, usize), SiriusError>) {
        let (v, n) = T::deserialize(data)?;
        Ok((Box::new(v), n))
    }
}


impl<A: Sirius, B: Sirius> Sirius for (A, B) {
    /// A record of two fields: each field's encoding in order.
    open spec fn spec_serialize(&self) -> Seq<u8> {
        self.0.spec_serialize() + self.1.spec_serialize()
    }

    open spec fn spec_encodable(&self) -> bool {
        self.0.spec_encodable() && self.1.spec_encodable()
    }

    open spec fn spec_deserialize(data: Seq<u8>) -> Result<((A::V, B::V), int), ErrorKind> {
        match A::spec_deserialize(data) {
            Err(e) => Err(e),
            Ok((a, n)) => match B::spec_deserialize(data.skip(n)) {
                Err(e) => Err(e),
                Ok((b, m)) => Ok(((a, b), n + m)),
            },
        }
    }

    proof fn lemma_deserialize_len(data: Seq<u8>) {
        A::lemma_deserialize_len(data);
        if let Ok((_, n)) = A::spec_deserialize(data) {
            B::lemma_deserialize_len(data.skip(n));
        }
    }

    proof fn lemma_round_trip(&self, rest: Seq<u8>) {
        let ea = self.0.spec_serialize();
        let tail = self.1.spec_serialize() + rest;
        assert(self.spec_serialize() + rest =~= ea + tail);
        self.0.lemma_round_trip(tail);
        assert((ea + tail).skip(ea.len() as int) =~= tail);
        self.1.lemma_round_trip(rest);
    }

    proof fn lemma_truncated(&self, k: int) {
        let ea = self.0.spec_serialize();
        let cut = self.spec_serialize().take(k);
        if k < ea.len() {
            assert(cut =~= ea.take(k));
            self.0.lemma_truncated(k);
        } else {
            let part = self.1.spec_serialize().take(k - ea.len());
            assert(cut =~= ea + part);
            self.0.lemma_round_trip(part);
            assert(cut.skip(ea.len() as int) =~= part);
            self.1.lemma_truncated(k - ea.len());
        }
    }

    fn serialize(&self, output: &mut Vec<u8>) -> (r: Result<usize, SiriusError>) {
        let ghost init = output@;
        let start = output.len();
        self.0.serialize(output)?;
        match self.1.serialize(output) {
            Ok(_) => {
                assert(output@ =~= init + self.spec_serialize());
                Ok(output.len() - start)
            },
            Err(e) => {
                output.truncate(start);
                assert(output@ =~= init);
                Err(e)
            },
        }
    }

    fn deserialize(data: &[u8]) -> (r: Result<((A, B), usize), SiriusError>) {
        assert(data@.skip(0) =~= data@);
        let (a, offset) = deserialize_field::<A>(data, 0)?;
        let (b, offset) = deserialize_field::<B>(data, offset)?;
        Ok(((a, b), offset))
    }
}


impl<A: Sirius, B: Sirius, C: Sirius> Sirius for (A, B, C) {
    /// A record of three fields: each field's encoding in order.
    open spec fn spec_serialize(&self) -> Seq<u8> {
        self.0.spec_serialize() + self.1.spec_serialize() + self.2.spec_serialize()
    }

    open spec fn spec_encodable(&self) -> bool {
        self.0.spec_encodable() && self.1.spec_encodable() && self.2.spec_encodable()
    }

    open spec fn spec_deserialize(data: Seq<u8>) -> Result<((A::V, B::V, C::V), int), ErrorKind> {
        match A::spec_deserialize(data) {
            Err(e) => Err(e),
            Ok((a, n)) => match B::spec_deserialize(data.skip(n)) {
                Err(e) => Err(e),
                Ok((b, m)) => match C::spec_deserialize(data.skip(n + m)) {
                    Err(e) => Err(e),
                    Ok((c, l)) => Ok(((a, b, c), n + m + l)),
                },
            },
        }
    }

    proof fn lemma_deserialize_len(data: Seq<u8>) {
        A::lemma_deserialize_len(data);
        if let Ok((_, n)) = A::spec_deserialize(data) {
            B::lemma_deserialize_len(data.skip(n));
            if let Ok((_, m)) = B::spec_deserialize(data.skip(n)) {
                C::lemma_deserialize_len(data.skip(n + m));
            }
        }
    }

    proof fn lemma_round_trip(&self, rest: Seq<u8>) {
        let ea = self.0.spec_serialize();
        let eb = self.1.spec_serialize();
        let tail = self.2.spec_serialize() + rest;
        let data = self.spec_serialize() + rest;
        assert(data =~= ea + (eb + tail));
        self.0.lemma_round_trip(eb + tail);
        assert(data.skip(ea.len() as int) =~= eb + tail);
        self.1.lemma_round_trip(tail);
        assert(data.skip(ea.len() + eb.len() as int) =~= tail);
        self.2.lemma_round_trip(rest);
    }

    proof fn lemma_truncated(&self, k: int) {
        let ea = self.0.spec_serialize();
        let eb = self.1.spec_serialize();
        let cut = self.spec_serialize().take(k);
        if k < ea.len() {
            assert(cut =~= ea.take(k));
            self.0.lemma_truncated(k);
        } else if k < ea.len() + eb.len() {
            let part = eb.take(k - ea.len());
            assert(cut =~= ea + part);
            self.0.lemma_round_trip(part);
            assert(cut.skip(ea.len() as int) =~= part);
            self.1.lemma_truncated(k - ea.len());
        } else {
            let part = self.2.spec_serialize().take(k - ea.len() - eb.len());
            assert(cut =~= ea + (eb + part));
            self.0.lemma_round_trip(eb + part);
            assert(cut.skip(ea.len() as int) =~= eb + part);
            self.1.lemma_round_trip(part);
            assert(cut.skip(ea.len() + eb.len() as int) =~= part);
            self.2.lemma_truncated(k - ea.len() - eb.len());
        }
    }

    fn serialize(&self, output: &mut Vec<u8>) -> (r: Result<usize, SiriusError>) {
        let ghost init = output@;
        let start = output.len();
        self.0.serialize(output)?;
        match self.1.serialize(output) {
            Ok(_) => {},
            Err(e) => {
                output.truncate(start);
                assert(output@ =~= init);
                return Err(e);
            },
        }
        match self.2.serialize(output) {
            Ok(_) => {
                assert(output@ =~= init + self.spec_serialize());
                Ok(output.len() - start)
            },
            Err(e) => {
                output.truncate(start);
                assert(output@ =~= init);
                Err(e)
            },
        }
    }

    fn deserialize(data: &[u8]) -> (r: Result<((A, B, C), usize), SiriusError>) {
        assert(data@.skip(0) =~= data@);
        let (a, offset) = deserialize_field::<A>(data, 0)?;
        let (b, offset) = deserialize_field::<B>(data, offset)?;
        let (c, offset) = deserialize_field::<C>(data, offset)?;
        Ok(((a, b, c), offset))
    }
}

/// Decoding an `Option` whose variant index is neither `0` nor `1` is refused with a
/// parsing failure that names the union.
pub proof fn lemma_option_unknown_variant<T: Sirius>(data: Seq<u8>)
    requires
        data.len() > 0,
        data[0] >= 2,
    ensures
        Option::<T>::spec_deserialize(data) == Err::<(Option<T::V>, int), ErrorKind>(
            ErrorKind::Parsing("Option"@),
        ),
{
}

impl<T: Sirius> Sirius for Option<T> {
    /// A tagged union of two variants: `0` for `None`; `1`, then the value, for `Some`.
    open spec fn spec_serialize(&self) -> Seq<u8> {
        match self {
            None => seq![0u8],
            Some(v) => seq![1u8] + v.spec_serialize(),
        }
    }

    open spec fn spec_encodable(&self) -> bool {
        match self {
            None => true,
            Some(v) => v.spec_encodable(),
        }
    }

    open spec fn spec_deserialize(data: Seq<u8>) -> Result<(Option<T::V>, int), ErrorKind> {
        match spec_variant(data, 2, "Option"@) {
            Err(e) => Err(e),
            Ok((index, n)) => if index == 0 {
                Ok((None, n))
            } else {
                match T::spec_deserialize(data.skip(n)) {
                    Err(e) => Err(e),
                    Ok((v, m)) => Ok((Some(v), n + m)),
                }
            },
        }
    }

    proof fn lemma_deserialize_len(data: Seq<u8>) {
        if data.len() > 0 {
            T::lemma_deserialize_len(data.skip(1));
        }
    }

    proof fn lemma_round_trip(&self, rest: Seq<u8>) {
        if let Some(v) = self {
            let data = self.spec_serialize() + rest;
            assert(data.skip(1) =~= v.spec_serialize() + rest);
            v.lemma_round_trip(rest);
        }
    }

    proof fn lemma_truncated(&self, k: int) {
        if let Some(v) = self {
            if k > 0 {
                assert(self.spec_serialize().take(k).skip(1) =~= v.spec_serialize().take(k - 1));
                v.lemma_truncated(k - 1);
            }
        }
    }

    fn serialize(&self, output: &mut Vec<u8>) -> (r: Result<usize, SiriusError>) {
        match self {
            None => {
                output.push(0u8);
                assert(output@ =~= old(output)@ + self.spec_serialize());
                Ok(1)
            },
            Some(v) => {
                let ghost init = output@;
                let start = output.len();
                output.push(1u8);
                match v.serialize(output) {
                    Ok(_) => {
                        assert(output@ =~= init + self.spec_serialize());
                        Ok(output.len() - start)
                    },
                    Err(e) => {
                        output.truncate(start);
                        assert(output@ =~= init);
                        Err(e)
                    },
                }
            },
        }
    }

    fn deserialize(data: &[u8]) -> (r: Result<(Option<T>, usize), SiriusError>) {
        let (index, offset) = deserialize_variant(data, 2, "Option")?;
        if index == 0 {
            Ok((None, offset))
        } else {
            let (v, offset) = deserialize_field::<T>(data, offset)?;
            Ok((Some(v), offset))
        }
    }
}

} // verus!
