//! Little-endian decoding of fixed-width integers from byte buffers.
use vstd::prelude::*;

verus! {

/// The unsigned value of little-endian bytes.
pub open spec fn le_value(s: Seq<u8>) -> nat
    decreases s.len(),
{
    if s.len() == 0 {
        0
    } else {
        s[0] as nat + 256 * le_value(s.drop_first())
    }
}

/// The unsigned value of `width` little-endian bytes at `offset`.
pub open spec fn le_at(s: Seq<u8>, offset: int, width: int) -> nat {
    le_value(s.subrange(offset, offset + width))
}

/// 256 to the power `n`.
pub open spec fn pow256(n: nat) -> nat
    decreases n,
{
    if n == 0 {
        1
    } else {
        256 * pow256((n - 1) as nat)
    }
}

/// A little-endian value of `n` bytes is below 256 to the `n`.
pub proof fn lemma_le_value_bound(s: Seq<u8>)
    ensures
        le_value(s) < pow256(s.len()),
    decreases s.len(),
{
    if s.len() > 0 {
        lemma_le_value_bound(s.drop_first());
        assert(s[0] as nat + 256 * le_value(s.drop_first()) < pow256(s.len())) by (nonlinear_arith)
            requires
                s[0] < 256,
                le_value(s.drop_first()) + 1 <= pow256(s.drop_first().len()),
                pow256(s.len()) == 256 * pow256(s.drop_first().len()),
        ;
    }
}

/// The powers of 256 for the widths that are read.
pub proof fn lemma_pow256_values()
    ensures
        pow256(1) == 0x100,
        pow256(2) == 0x1_0000,
        pow256(4) == 0x1_0000_0000,
        pow256(8) == 0x1_0000_0000_0000_0000,
{
    reveal_with_fuel(pow256, 9);
}

/// Powers of 256 grow with the exponent.
pub proof fn lemma_pow256_monotone(a: nat, b: nat)
    requires
        a <= b,
    ensures
        pow256(a) <= pow256(b),
    decreases b,
{
    if a < b {
        lemma_pow256_monotone(a, (b - 1) as nat);
    }
}

/// Decodes `width` little-endian bytes at `offset` as an unsigned value.
pub fn le_u64(bytes: &Vec<u8>, offset: usize, width: usize) -> (v: u64)
    requires
        width <= 8,
        offset + width <= bytes@.len(),
    ensures
        v as nat == le_at(bytes@, offset as int, width as int),
{
    let len = bytes.len();
    assert(offset + width <= len);
    let end = offset + width;
    let mut i = end;
    let mut v: u64 = 0;
    proof {
        lemma_pow256_values();
        assert(bytes@.subrange(end as int, end as int) =~= Seq::<u8>::empty());
    }
    while i > offset
        invariant
            offset <= i <= end,
            end == offset + width,
            width <= 8,
            end <= bytes@.len(),
            v as nat == le_value(bytes@.subrange(i as int, end as int)),
            pow256(8) == 0x1_0000_0000_0000_0000,
        decreases i - offset,
    {
        let ghost rest = bytes@.subrange(i as int, end as int);
        proof {
            lemma_le_value_bound(rest);
            lemma_pow256_monotone((rest.len() + 1) as nat, 8);
            assert(bytes@.subrange(i - 1, end as int).drop_first() =~= rest);
            assert(v * 256 + bytes@[i - 1] < pow256((rest.len() + 1) as nat)) by (nonlinear_arith)
                requires
                    v < pow256(rest.len()),
                    bytes@[i - 1] < 256,
                    pow256((rest.len() + 1) as nat) == 256 * pow256(rest.len()),
            ;
        }
        v = v * 256 + bytes[i - 1] as u64;
        i = i - 1;
    }
    v
}

} // verus!
