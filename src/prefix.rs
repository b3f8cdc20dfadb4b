//! Length-prefixed byte payloads: a 4-byte big-endian length, then the bytes.
use vstd::prelude::*;

use crate::endian;
use crate::numbers;
use crate::{ErrorKind, SiriusError, LENGTH_BYTES};

verus! {

/// Whether a payload of `len` bytes or items can be announced by a length prefix.
/// Lengths from `LengthPrefix::MAX` up are refused.
pub open spec fn fits_prefix(len: int) -> bool {
    len < u32::MAX
}

/// The boundary of the length prefix: a length of exactly `LengthPrefix::MAX` is refused,
/// and one less is accepted.
pub proof fn lemma_overflow_boundary()
    ensures
        !fits_prefix(u32::MAX as int),
        fits_prefix(u32::MAX - 1),
{
}

/// The prefix that announces `len`.
pub open spec fn spec_prefix(len: nat) -> Seq<u8> {
    endian::be_bytes(len, 4)
}

/// A payload with its length prefix.
pub open spec fn spec_length_prefixed(payload: Seq<u8>) -> Seq<u8> {
    spec_prefix(payload.len()) + payload
}

/// Reading a length prefix and the payload it announces from the front of `data`:
/// the payload and the number of bytes taken, or missing data.
pub open spec fn spec_read_length_prefixed(data: Seq<u8>) -> Result<(Seq<u8>, int), ErrorKind> {
    match numbers::spec_fixed(data, 4) {
        Err(e) => Err(e),
        Ok((len, _)) => if data.len() < 4 + len {
            Err(ErrorKind::NotEnoughData)
        } else {
            Ok((data.subrange(4, 4 + len as int), 4 + len as int))
        },
    }
}

/// A prefix that announces a length below `LengthPrefix::MAX` reads back as that length,
/// whatever follows it.
pub proof fn lemma_prefix_round_trip(len: nat, rest: Seq<u8>)
    requires
        fits_prefix(len as int),
    ensures
        spec_prefix(len).len() == 4,
        numbers::spec_fixed(spec_prefix(len) + rest, 4) == Ok::<(nat, int), ErrorKind>((len, 4)),
{
    endian::lemma_pow256_values();
    endian::lemma_be_bytes_len(len, 4);
    endian::lemma_be_round_trip(len, 4);
    assert((spec_prefix(len) + rest).take(4) =~= spec_prefix(len));
}

pub proof fn lemma_length_prefixed_round_trip(payload: Seq<u8>, rest: Seq<u8>)
    requires
        fits_prefix(payload.len() as int),
    ensures
        spec_length_prefixed(payload).len() == 4 + payload.len(),
        spec_read_length_prefixed(spec_length_prefixed(payload) + rest) == Ok::<
            (Seq<u8>, int),
            ErrorKind,
        >((payload, spec_length_prefixed(payload).len() as int)),
{
    let p = spec_prefix(payload.len());
    lemma_prefix_round_trip(payload.len(), payload + rest);
    assert(spec_length_prefixed(payload) + rest =~= p + (payload + rest));
    assert((p + (payload + rest)).subrange(4, 4 + payload.len() as int) =~= payload);
}

pub proof fn lemma_length_prefixed_truncated(payload: Seq<u8>, k: int)
    requires
        fits_prefix(payload.len() as int),
        0 <= k < spec_length_prefixed(payload).len(),
    ensures
        spec_read_length_prefixed(spec_length_prefixed(payload).take(k)) == Err::<
            (Seq<u8>, int),
            ErrorKind,
        >(ErrorKind::NotEnoughData),
{
    let p = spec_prefix(payload.len());
    let whole = spec_length_prefixed(payload);
    lemma_prefix_round_trip(payload.len(), payload);
    if k >= 4 {
        lemma_prefix_round_trip(payload.len(), whole.take(k).skip(4));
        assert(whole.take(k) =~= p + whole.take(k).skip(4));
    }
}

/// Appends `slice` with its length prefix to `output`, returning the bytes written.
/// A slice of `LengthPrefix::MAX` bytes or more is refused with `Overflow` before anything
/// is written.
pub fn serialize_with_length_prefix(slice: &[u8], output: &mut Vec<u8>) -> (r: Result<
    usize,
    SiriusError,
>)
    ensures
        match r {
            Ok(n) => {
                &&& fits_prefix(slice@.len() as int)
                &&& n == spec_length_prefixed(slice@).len()
                &&& final(output)@ == old(output)@ + spec_length_prefixed(slice@)
            },
            Err(e) => {
                &&& !fits_prefix(slice@.len() as int)
                &&& e is Overflow
                &&& final(output)@ == old(output)@
            },
        },
{
    if slice.len() >= u32::MAX as usize {
        return Err(SiriusError::Overflow);
    }
    let start = output.len();
    endian::push_be(output, slice.len() as u128, LENGTH_BYTES);
    let ghost header = output@;
    let mut i: usize = 0;
    while i < slice.len()
        invariant
            i <= slice@.len(),
            output@ == header + slice@.take(i as int),
        decreases slice@.len() - i,
    {
        output.push(slice[i]);
        i = i + 1;
        assert(output@ =~= header + slice@.take(i as int));
    }
    proof {
        endian::lemma_be_bytes_len(slice@.len(), 4);
        assert(slice@.take(slice@.len() as int) =~= slice@);
        assert(output@ =~= old(output)@ + spec_length_prefixed(slice@));
    }
    Ok(output.len() - start)
}

/// Reads a length prefix from the front of `data` and hands the payload it announces to
/// `f`, with the total number of bytes taken (prefix and payload). Returns what `f` made
/// and that number, or `NotEnoughData` when `data` is too short for the prefix or the
/// payload.
pub fn deserialize_with_length_prefix<T, F: FnOnce(&[u8], usize) -> T>(data: &[u8], f: F) -> (r:
    Result<(T, usize), SiriusError>)
    requires
        forall|payload: &[u8], n: usize| f.requires((payload, n)),
    ensures
        match r {
            Ok((t, n)) => {
                &&& spec_read_length_prefixed(data@) is Ok
                &&& spec_read_length_prefixed(data@)->Ok_0.1 == n
                &&& exists|payload: &[u8]|
                    #![trigger f.ensures((payload, n), t)]
                    payload@ == spec_read_length_prefixed(data@)->Ok_0.0 && f.ensures((payload, n), t)
            },
            Err(e) => spec_read_length_prefixed(data@) == Err::<(Seq<u8>, int), ErrorKind>(
                e.kind(),
            ),
        },
{
    if data.len() < LENGTH_BYTES {
        return Err(SiriusError::NotEnoughData);
    }
    proof {
        endian::lemma_pow256_values();
        endian::lemma_be_value_bound(data@.take(4));
    }
    let len = endian::read_be(data, LENGTH_BYTES) as usize;
    if data.len() - LENGTH_BYTES < len {
        return Err(SiriusError::NotEnoughData);
    }
    let total = len + LENGTH_BYTES;
    let payload = &data[LENGTH_BYTES..total];
    let t = f(payload, total);
    let r = Ok((t, total));
    assert(r matches Ok((t1, n1)) ==> f.ensures((payload, n1), t1));
    r
}

} // verus!
