use vstd::prelude::*;

verus! {

/// Bit `j` of `x` is set.
pub open spec fn bit(x: u64, j: u64) -> bool {
    (x >> j) & 1u64 == 1u64
}

pub proof fn lemma_bit_or(a: u64, b: u64, j: u64)
    requires
        j < 64,
    ensures
        bit(a | b, j) == (bit(a, j) || bit(b, j)),
{
    assert(((a | b) >> j) & 1u64 == 1u64 <==> ((a >> j) & 1u64 == 1u64 || (b >> j) & 1u64 == 1u64))
        by (bit_vector)
        requires
            j < 64,
    ;
}

pub proof fn lemma_bit_single(k: u64, j: u64)
    requires
        k < 64,
        j < 64,
    ensures
        bit(1u64 << k, j) == (j == k),
{
    assert(((1u64 << k) >> j) & 1u64 == 1u64 <==> j == k) by (bit_vector)
        requires
            k < 64,
            j < 64,
    ;
}

pub proof fn lemma_bit_zero(j: u64)
    requires
        j < 64,
    ensures
        !bit(0u64, j),
{
    assert((0u64 >> j) & 1u64 != 1u64) by (bit_vector)
        requires
            j < 64,
    ;
}

/// Agreement on bits `n` and above makes the values agree once shifted
/// right by `n`.
proof fn lemma_bits_agree_from(a: u64, b: u64, n: u64)
    requires
        n < 64,
        forall|j: u64| n <= j < 64 ==> #[trigger] bit(a, j) == bit(b, j),
    ensures
        a >> n == b >> n,
    decreases 64 - n,
{
    if n == 63 {
        assert(bit(a, 63) == bit(b, 63));
        assert((a >> 63u64) & 1u64 == 1u64 <==> (b >> 63u64) & 1u64 == 1u64);
        assert(((a >> 63u64) & 1u64 == 1u64 <==> (b >> 63u64) & 1u64 == 1u64) ==> a >> 63u64 == b
            >> 63u64) by (bit_vector);
    } else {
        lemma_bits_agree_from(a, b, (n + 1) as u64);
        assert(bit(a, n) == bit(b, n));
        let m = (n + 1) as u64;
        assert((a >> m == b >> m && m == n + 1 && n < 63 && (((a >> n) & 1u64 == 1u64) <==> ((b
            >> n) & 1u64 == 1u64))) ==> a >> n == b >> n) by (bit_vector);
    }
}

/// Two values with the same bits are equal.
pub proof fn lemma_bits_equal(a: u64, b: u64)
    requires
        forall|j: u64| j < 64 ==> #[trigger] bit(a, j) == bit(b, j),
    ensures
        a == b,
{
    lemma_bits_agree_from(a, b, 0);
    assert(a >> 0u64 == a && b >> 0u64 == b) by (bit_vector);
}

} // verus!
