//! Big-endian byte strings of unsigned integers.
use vstd::prelude::*;

verus! {

/// `256` to the power `width`: one more than the largest value of `width` bytes.
pub open spec fn pow256(width: nat) -> nat
    decreases width,
{
    if width == 0 {
        1
    } else {
        (256 * pow256((width - 1) as nat)) as nat
    }
}

/// The `width` low-order bytes of `v`, most significant first.
pub open spec fn be_bytes(v: nat, width: nat) -> Seq<u8>
    decreases width,
{
    if width == 0 {
        Seq::empty()
    } else {
        be_bytes(v / 256, (width - 1) as nat).push((v % 256) as u8)
    }
}

/// The unsigned integer whose big-endian bytes are `s`.
pub open spec fn be_value(s: Seq<u8>) -> nat
    decreases s.len(),
{
    if s.len() == 0 {
        0
    } else {
        (be_value(s.drop_last()) * 256 + s.last()) as nat
    }
}

pub proof fn lemma_pow256_positive(width: nat)
    ensures
        pow256(width) > 0,
    decreases width,
{
    if width > 0 {
        lemma_pow256_positive((width - 1) as nat);
    }
}

pub proof fn lemma_pow256_values()
    ensures
        pow256(1) == 0x100,
        pow256(2) == 0x1_0000,
        pow256(4) == 0x1_0000_0000,
        pow256(8) == 0x1_0000_0000_0000_0000,
        pow256(16) == 0x1_0000_0000_0000_0000_0000_0000_0000_0000,
{
    reveal_with_fuel(pow256, 17);
}

pub proof fn lemma_be_bytes_len(v: nat, width: nat)
    ensures
        be_bytes(v, width).len() == width,
    decreases width,
{
    if width > 0 {
        lemma_be_bytes_len(v / 256, (width - 1) as nat);
    }
}

/// The bytes of a value below `256^width` read back as that value.
pub proof fn lemma_be_round_trip(v: nat, width: nat)
    requires
        v < pow256(width),
    ensures
        be_value(be_bytes(v, width)) == v,
    decreases width,
{
    if width > 0 {
        let w = (width - 1) as nat;
        lemma_be_bytes_len(v / 256, w);
        assert(v / 256 < pow256(w)) by (nonlinear_arith)
            requires
                v < 256 * pow256(w),
        ;
        lemma_be_round_trip(v / 256, w);
        let s = be_bytes(v, width);
        assert(s.drop_last() =~= be_bytes(v / 256, w));
    }
}

/// A value read from `n` bytes is below `256^n`.
pub proof fn lemma_be_value_bound(s: Seq<u8>)
    ensures
        be_value(s) < pow256(s.len()),
    decreases s.len(),
{
    if s.len() > 0 {
        let p = s.drop_last();
        lemma_be_value_bound(p);
        let a = be_value(p);
        let b = s.last() as nat;
        let q = pow256(p.len());
        assert(a * 256 + b < 256 * q) by (nonlinear_arith)
            requires
                a < q,
                b < 256,
        ;
    }
}

/// Appends the `width` low-order bytes of `v` to `output`, most significant first.
pub fn push_be(output: &mut Vec<u8>, v: u128, width: usize)
    ensures
        final(output)@ == old(output)@ + be_bytes(v as nat, width as nat),
    decreases width,
{
    if width > 0 {
        push_be(output, v / 256, width - 1);
        let ghost mid = output@;
        output.push((v % 256) as u8);
        proof {
            assert(be_bytes(v as nat, width as nat) == be_bytes((v / 256) as nat, (width - 1) as nat).push(
                (v % 256) as u8,
            ));
            assert(output@ =~= old(output)@ + be_bytes(v as nat, width as nat));
        }
    } else {
        assert(old(output)@ + be_bytes(v as nat, 0) =~= old(output)@);
    }
}

/// Reads the first `width` bytes of `data` as a big-endian unsigned integer.
pub fn read_be(data: &[u8], width: usize) -> (r: u128)
    requires
        width <= 16,
        width <= data@.len(),
    ensures
        r == be_value(data@.take(width as int)),
{
    let mut acc: u128 = 0;
    let mut i: usize = 0;
    while i < width
        invariant
            i <= width <= 16,
            width <= data@.len(),
            acc == be_value(data@.take(i as int)),
        decreases width - i,
    {
        proof {
            lemma_be_value_bound(data@.take(i as int));
            lemma_pow256_values();
            lemma_pow_monotonic(i as nat, 15);
            let a = acc as nat;
            let q = pow256(i as nat);
            assert(a * 256 + 255 < 0x1_0000_0000_0000_0000_0000_0000_0000_0000) by (nonlinear_arith)
                requires
                    a < q,
                    q <= pow256(15),
                    256 * pow256(15) == 0x1_0000_0000_0000_0000_0000_0000_0000_0000int,
            ;
            assert(data@.take(i + 1).drop_last() =~= data@.take(i as int));
        }
        acc = acc * 256 + data[i] as u128;
        i = i + 1;
    }
    acc
}

pub proof fn lemma_pow_monotonic(a: nat, b: nat)
    requires
        a <= b,
    ensures
        pow256(a) <= pow256(b),
    decreases b,
{
    if a < b {
        lemma_pow_monotonic(a, (b - 1) as nat);
        lemma_pow256_positive((b - 1) as nat);
    }
}

} // verus!
