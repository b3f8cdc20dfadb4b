//! Homogeneous sequences: vectors (a 4-byte count, then the items) and fixed-size arrays
//! (the items alone, since their number is known from the type).
use vstd::prelude::*;

use crate::endian;
use crate::numbers;
use crate::prefix;
use crate::{ErrorKind, Sirius, SiriusError, LENGTH_BYTES};

verus! {

/// The encodings of `items`, one after another.
pub open spec fn spec_concat<T: Sirius>(items: Seq<T>) -> Seq<u8>
    decreases items.len(),
{
    if items.len() == 0 {
        Seq::empty()
    } else {
        spec_concat(items.drop_last()) + items.last().spec_serialize()
    }
}

/// Whether every item can be encoded.
pub open spec fn all_encodable<T: Sirius>(items: Seq<T>) -> bool {
    forall|i: int| 0 <= i < items.len() ==> #[trigger] items[i].spec_encodable()
}

/// The deep views of `items`, in order.
pub open spec fn deep_views<T: DeepView>(items: Seq<T>) -> Seq<T::V> {
    Seq::new(items.len(), |i: int| items[i].deep_view())
}

/// Decoding `count` values one after another from the front of `data`: their deep views
/// and the bytes taken, or the first failure.
pub open spec fn spec_decode_items<T: Sirius>(data: Seq<u8>, count: nat) -> Result<
    (Seq<T::V>, int),
    ErrorKind,
>
    decreases count,
{
    if count == 0 {
        Ok((Seq::empty(), 0))
    } else {
        match spec_decode_items::<T>(data, (count - 1) as nat) {
            Err(e) => Err(e),
            Ok((vs, off)) => match T::spec_deserialize(data.skip(off)) {
                Err(e) => Err(e),
                Ok((v, n)) => Ok((vs.push(v), off + n)),
            },
        }
    }
}

pub proof fn lemma_decode_items_len<T: Sirius>(data: Seq<u8>, count: nat)
    ensures
        spec_decode_items::<T>(data, count) matches Ok((vs, off)) ==> vs.len() == count && 0
            <= off <= data.len(),
    decreases count,
{
    if count > 0 {
        lemma_decode_items_len::<T>(data, (count - 1) as nat);
        if let Ok((vs, off)) = spec_decode_items::<T>(data, (count - 1) as nat) {
            T::lemma_deserialize_len(data.skip(off));
        }
    }
}

/// Once decoding items has failed, decoding more items fails the same way.
pub proof fn lemma_decode_items_err<T: Sirius>(data: Seq<u8>, i: nat, count: nat)
    requires
        i <= count,
        spec_decode_items::<T>(data, i) is Err,
    ensures
        spec_decode_items::<T>(data, count) == spec_decode_items::<T>(data, i),
    decreases count,
{
    if i < count {
        lemma_decode_items_err::<T>(data, i, (count - 1) as nat);
    }
}

/// Decoding the encodings of `items`, whatever follows them, gives the items back.
pub proof fn lemma_decode_items_round_trip<T: Sirius>(items: Seq<T>, rest: Seq<u8>)
    requires
        all_encodable(items),
    ensures
        spec_decode_items::<T>(spec_concat(items) + rest, items.len()) == Ok::<
            (Seq<T::V>, int),
            ErrorKind,
        >((deep_views(items), spec_concat(items).len() as int)),
    decreases items.len(),
{
    if items.len() == 0 {
        assert(deep_views(items) =~= Seq::<T::V>::empty());
    } else {
        let init = items.drop_last();
        let last = items.last();
        let tail = last.spec_serialize() + rest;
        assert(all_encodable(init));
        lemma_decode_items_round_trip::<T>(init, tail);
        let data = spec_concat(items) + rest;
        assert(data =~= spec_concat(init) + tail);
        assert(data.skip(spec_concat(init).len() as int) =~= tail);
        last.lemma_round_trip(rest);
        assert(deep_views(init).push(last.deep_view()) =~= deep_views(items));
    }
}

/// Decoding a strict prefix of the encodings of `items` reports missing data.
pub proof fn lemma_decode_items_truncated<T: Sirius>(items: Seq<T>, k: int)
    requires
        all_encodable(items),
        0 <= k < spec_concat(items).len(),
    ensures
        spec_decode_items::<T>(spec_concat(items).take(k), items.len()) == Err::<
            (Seq<T::V>, int),
            ErrorKind,
        >(ErrorKind::NotEnoughData),
    decreases items.len(),
{
    let init = items.drop_last();
    let last = items.last();
    let head = spec_concat(init);
    let cut = spec_concat(items).take(k);
    assert(all_encodable(init));
    if k < head.len() {
        assert(cut =~= head.take(k));
        lemma_decode_items_truncated::<T>(init, k);
    } else {
        let part = last.spec_serialize().take(k - head.len());
        assert(cut =~= head + part);
        lemma_decode_items_round_trip::<T>(init, part);
        assert(cut.skip(head.len() as int) =~= part);
        last.lemma_truncated(k - head.len());
    }
}

/// A vector whose items can all be encoded can itself be encoded exactly when its length
/// is below `LengthPrefix::MAX`: at that length it is refused, at one less it is not.
pub proof fn lemma_vec_overflow_boundary<T: Sirius>(v: &Vec<T>)
    requires
        all_encodable(v@),
    ensures
        v.spec_encodable() <==> v@.len() < u32::MAX,
        v@.len() == u32::MAX ==> !v.spec_encodable(),
        v@.len() == u32::MAX - 1 ==> v.spec_encodable(),
{
}

impl<T: Sirius> Sirius for Vec<T> {
    /// The number of items behind a length prefix, then each item's encoding in order.
    open spec fn spec_serialize(&self) -> Seq<u8> {
        prefix::spec_prefix(self@.len()) + spec_concat(self@)
    }

    open spec fn spec_encodable(&self) -> bool {
        prefix::fits_prefix(self@.len() as int) && all_encodable(self@)
    }

    open spec fn spec_deserialize(data: Seq<u8>) -> Result<(Seq<T::V>, int), ErrorKind> {
        match numbers::spec_fixed(data, 4) {
            Err(e) => Err(e),
            Ok((count, _)) => match spec_decode_items::<T>(data.skip(4), count) {
                Err(e) => Err(e),
                Ok((vs, n)) => Ok((vs, 4 + n)),
            },
        }
    }

    proof fn lemma_deserialize_len(data: Seq<u8>) {
        if let Ok((count, _)) = numbers::spec_fixed(data, 4) {
            lemma_decode_items_len::<T>(data.skip(4), count);
        }
    }

    proof fn lemma_round_trip(&self, rest: Seq<u8>) {
        let body = spec_concat(self@) + rest;
        prefix::lemma_prefix_round_trip(self@.len(), body);
        let data = self.spec_serialize() + rest;
        assert(data =~= prefix::spec_prefix(self@.len()) + body);
        assert(data.skip(4) =~= body);
        lemma_decode_items_round_trip::<T>(self@, rest);
        assert(deep_views(self@) =~= self.deep_view());
    }

    proof fn lemma_truncated(&self, k: int) {
        let p = prefix::spec_prefix(self@.len());
        let cut = self.spec_serialize().take(k);
        prefix::lemma_prefix_round_trip(self@.len(), Seq::empty());
        if k >= 4 {
            let part = spec_concat(self@).take(k - 4);
            prefix::lemma_prefix_round_trip(self@.len(), part);
            assert(cut =~= p + part);
            assert(cut.skip(4) =~= part);
            lemma_decode_items_truncated::<T>(self@, k - 4);
        }
    }

    fn serialize(&self, output: &mut Vec<u8>) -> (r: Result<usize, SiriusError>) {
        if self.len() >= u32::MAX as usize {
            return Err(SiriusError::Overflow);
        }
        let ghost init = output@;
        let start = output.len();
        endian::push_be(output, self.len() as u128, LENGTH_BYTES);
        let ghost header = output@;
        match serialize_items(self.as_slice(), output) {
            Ok(_) => {
                assert(output@ =~= init + self.spec_serialize());
                Ok(output.len() - start)
            },
            Err(e) => {
                output.truncate(start);
                proof {
                    endian::lemma_be_bytes_len(self@.len(), 4);
                    assert(output@ =~= init);
                }
                Err(e)
            },
        }
    }

    fn deserialize(data: &[u8]) -> (r: Result<(Vec<T>, usize), SiriusError>) {
        let (count, _) = numbers::deserialize_fixed(data, LENGTH_BYTES)?;
        proof {
            endian::lemma_pow256_values();
        }
        let body = &data[LENGTH_BYTES..data.len()];
        assert(body@ =~= data@.skip(4));
        let (items, n) = deserialize_items(body, count as usize)?;
        Ok((items, LENGTH_BYTES + n))
    }
}

/// Relies on `TryFrom<Vec<T>>` for `[T; N]`: it succeeds when the vector holds exactly `N`
/// items, and the array holds them in the same order.
#[verifier::external_body]
fn array_from_vec<T, const N: usize>(items: Vec<T>) -> (r: Option<[T; N]>)
    ensures
        r is Some <==> items@.len() == N,
        r matches Some(a) ==> a@ == items@,
{
    <[T; N]>::try_from(items).ok()
}

impl<T: Sirius, const N: usize> Sirius for [T; N] {
    /// Each item's encoding in order, with no prefix: the count is part of the type.
    open spec fn spec_serialize(&self) -> Seq<u8> {
        spec_concat(self@)
    }

    open spec fn spec_encodable(&self) -> bool {
        all_encodable(self@)
    }

    open spec fn spec_deserialize(data: Seq<u8>) -> Result<(Seq<T::V>, int), ErrorKind> {
        spec_decode_items::<T>(data, N as nat)
    }

    proof fn lemma_deserialize_len(data: Seq<u8>) {
        lemma_decode_items_len::<T>(data, N as nat);
    }

    proof fn lemma_round_trip(&self, rest: Seq<u8>) {
        lemma_decode_items_round_trip::<T>(self@, rest);
        assert(deep_views(self@) =~= self.deep_view());
    }

    proof fn lemma_truncated(&self, k: int) {
        lemma_decode_items_truncated::<T>(self@, k);
    }

    fn serialize(&self, output: &mut Vec<u8>) -> (r: Result<usize, SiriusError>) {
        serialize_items(self.as_slice(), output)
    }

    fn deserialize(data: &[u8]) -> (r: Result<([T; N], usize), SiriusError>) {
        let (items, n) = deserialize_items(data, N)?;
        match array_from_vec(items) {
            Some(a) => {
                assert(deep_views(a@) =~= a.deep_view());
                Ok((a, n))
            },
            None => {
                assert(false);
                Err(SiriusError::NotEnoughData)
            },
        }
    }
}

/// Appends the encodings of `items` in order, returning the number of bytes written.
/// On failure `output` is left as it was.
fn serialize_items<T: Sirius>(items: &[T], output: &mut Vec<u8>) -> (r: Result<usize, SiriusError>)
    ensures
        match r {
            Ok(n) => {
                &&& all_encodable(items@)
                &&& n == spec_concat(items@).len()
                &&& final(output)@ == old(output)@ + spec_concat(items@)
            },
            Err(e) => {
                &&& !all_encodable(items@)
                &&& e is Overflow
                &&& final(output)@ == old(output)@
            },
        },
{
    let ghost init = output@;
    let start = output.len();
    let mut i: usize = 0;
    assert(output@ =~= init + spec_concat(items@.take(0)));
    while i < items.len()
        invariant
            i <= items@.len(),
            start == init.len(),
            init == old(output)@,
            output@ == init + spec_concat(items@.take(i as int)),
            all_encodable(items@.take(i as int)),
        decreases items@.len() - i,
    {
        match items[i].serialize(output) {
            Ok(_) => {},
            Err(e) => {
                output.truncate(start);
                proof {
                    assert(output@ =~= init);
                    assert(!items@[i as int].spec_encodable());
                }
                return Err(e);
            },
        }
        proof {
            let next = items@.take(i + 1);
            assert(next.drop_last() =~= items@.take(i as int));
            assert(output@ =~= init + spec_concat(next));
            assert forall|j: int| 0 <= j < next.len() implies #[trigger] next[j].spec_encodable() by {
                if j < i {
                    assert(next[j] == items@.take(i as int)[j]);
                }
            }
        }
        i = i + 1;
    }
    proof {
        assert(items@.take(items@.len() as int) =~= items@);
    }
    Ok(output.len() - start)
}

/// Decodes `count` values one after another from the front of `data`, returning them with
/// the number of bytes read. The vector is sized for at most as many items as there are
/// bytes left, whatever `count` claims.
fn deserialize_items<T: Sirius>(data: &[u8], count: usize) -> (r: Result<(Vec<T>, usize), SiriusError>)
    ensures
        match r {
            Ok((items, n)) => spec_decode_items::<T>(data@, count as nat) == Ok::<
                (Seq<T::V>, int),
                ErrorKind,
            >((deep_views(items@), n as int)) && items@.len() == count && n <= data@.len(),
            Err(e) => spec_decode_items::<T>(data@, count as nat) == Err::<(Seq<T::V>, int), ErrorKind>(
                e.kind(),
            ),
        },
{
    let mut items: Vec<T> = Vec::with_capacity(if count < data.len() { count } else { data.len() });
    let mut offset: usize = 0;
    let mut i: usize = 0;
    assert(deep_views(items@) =~= Seq::<T::V>::empty());
    while i < count
        invariant
            offset <= data@.len(),
            items@.len() == i,
            i <= count,
            spec_decode_items::<T>(data@, i as nat) == Ok::<(Seq<T::V>, int), ErrorKind>(
                (deep_views(items@), offset as int),
            ),
        decreases count - i,
    {
        let rest = &data[offset..data.len()];
        assert(rest@ =~= data@.skip(offset as int));
        match T::deserialize(rest) {
            Ok((item, n)) => {
                proof {
                    T::lemma_deserialize_len(rest@);
                }
                let ghost prev = items@;
                items.push(item);
                offset = offset + n;
                assert(deep_views(items@) =~= deep_views(prev).push(items@.last().deep_view()));
            },
            Err(e) => {
                proof {
                    lemma_decode_items_err::<T>(data@, (i + 1) as nat, count as nat);
                }
                return Err(e);
            },
        }
        i = i + 1;
    }
    Ok((items, offset))
}

} // verus!
