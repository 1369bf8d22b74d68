//! Big-endian byte-order arithmetic: the numeric value of a byte sequence,
//! its inverse, and verified readers and writers over slices and vectors.

use vstd::prelude::*;
use vstd::slice::slice_index_get;

verus! {

broadcast use vstd::slice::group_slice_axioms;

/// Numeric value of a big-endian byte sequence.
pub open spec fn be_val(b: Seq<u8>) -> nat
    decreases b.len(),
{
    if b.len() == 0 {
        0
    } else {
        be_val(b.drop_last()) * 256 + b.last() as nat
    }
}

/// 256 to the power `n`: the number of values a big-endian sequence of
/// length `n` can take.
pub open spec fn pow256(n: nat) -> nat
    decreases n,
{
    if n == 0 {
        1
    } else {
        256 * pow256((n - 1) as nat)
    }
}

/// The big-endian byte sequence of length `n` whose value is `v` (mod 256^n).
pub open spec fn be_bytes(v: nat, n: nat) -> Seq<u8>
    decreases n,
{
    if n == 0 {
        Seq::empty()
    } else {
        be_bytes(v / 256, (n - 1) as nat).push((v % 256) as u8)
    }
}

/// Concrete values of the powers of 256 the codec works with, up to one
/// past the largest `u128`.
pub proof fn lemma_pow256_small()
    ensures
        pow256(2) == 0x1_0000,
        pow256(4) == 0x1_0000_0000,
        pow256(8) == 0x1_0000_0000_0000_0000,
        pow256(16) == 0x1_0000_0000_0000_0000_0000_0000_0000_0000,
{
    reveal_with_fuel(pow256, 17);
}

pub proof fn lemma_be_val_bound(b: Seq<u8>)
    ensures
        be_val(b) < pow256(b.len()),
    decreases b.len(),
{
    if b.len() == 0 {
    } else {
        lemma_be_val_bound(b.drop_last());
    }
}

pub proof fn lemma_pow256_monotonic(a: nat, b: nat)
    requires
        a <= b,
    ensures
        pow256(a) <= pow256(b),
    decreases b,
{
    if a < b {
        lemma_pow256_monotonic(a, (b - 1) as nat);
    }
}

pub proof fn lemma_be_bytes_len(v: nat, n: nat)
    ensures
        be_bytes(v, n).len() == n,
    decreases n,
{
    if n > 0 {
        lemma_be_bytes_len(v / 256, (n - 1) as nat);
    }
}

pub proof fn lemma_be_val_of_be_bytes(v: nat, n: nat)
    requires
        v < pow256(n),
    ensures
        be_val(be_bytes(v, n)) == v,
    decreases n,
{
    if n == 0 {
    } else {
        assert((v / 256) < pow256((n - 1) as nat)) by (nonlinear_arith)
            requires
                v < 256 * pow256((n - 1) as nat),
        ;
        lemma_be_val_of_be_bytes(v / 256, (n - 1) as nat);
        let rest = be_bytes(v / 256, (n - 1) as nat);
        assert(rest.push((v % 256) as u8).drop_last() =~= rest);
    }
}

/// Reads `count` bytes of `data` starting at `start` as one big-endian
/// number.
pub fn read_be(data: &[u8], start: usize, count: usize) -> (r: u128)
    requires
        start + count <= data@.len(),
        count <= 16,
    ensures
        r == be_val(data@.subrange(start as int, start as int + count as int)),
{
    let mut acc: u128 = 0;
    let mut i: usize = 0;
    proof {
        vstd::slice::axiom_spec_len(data);
        assert(data@.subrange(start as int, start as int) =~= Seq::<u8>::empty());
    }
    while i < count
        invariant
            start + count <= data@.len(),
            data@.len() <= usize::MAX,
            count <= 16,
            i <= count,
            acc == be_val(data@.subrange(start as int, start as int + i as int)),
            acc < pow256(i as nat),
        decreases count - i,
    {
        let b = *slice_index_get(data, start + i);
        proof {
            lemma_pow256_monotonic(i as nat, 15);
            lemma_pow256_small();
            assert(pow256(i as nat + 1) == 256 * pow256(i as nat));
            assert(pow256(16) == 256 * pow256(15));
            let grown = data@.subrange(start as int, start as int + i as int + 1);
            assert(grown.drop_last() =~= data@.subrange(start as int, start as int + i as int));
            assert(grown.last() == data@[start as int + i as int]);
        }
        acc = acc * 256 + (b as u128);
        i = i + 1;
    }
    acc
}

/// Appends the `count`-byte big-endian encoding of `value` to `out`.
pub fn push_be(out: &mut Vec<u8>, value: u128, count: usize)
    requires
        count <= 16,
        value < pow256(count as nat),
    ensures
        final(out)@ == old(out)@ + be_bytes(value as nat, count as nat),
    decreases count,
{
    if count == 0 {
        proof {
            assert(old(out)@ + be_bytes(value as nat, 0) =~= old(out)@);
        }
        return ;
    }
    proof {
        assert((value as nat / 256) < pow256((count - 1) as nat)) by (nonlinear_arith)
            requires
                (value as nat) < 256 * pow256((count - 1) as nat),
        ;
    }
    push_be(out, value / 256, count - 1);
    out.push((value % 256) as u8);
    proof {
        lemma_be_bytes_len(value as nat / 256, (count - 1) as nat);
        assert(out@ =~= old(out)@ + be_bytes(value as nat, count as nat));
    }
}

} // verus!
