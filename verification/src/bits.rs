use vstd::prelude::*;
use vstd::std_specs::bits::u64_trailing_zeros;

verus! {

/// True when bit `i` of `b` is set. Only indices below 64 name a bit.
pub open spec fn bit64(b: u64, i: u64) -> bool {
    i < 64 && (b & (1u64 << i)) != 0
}

/// Number of set bits of `b` at positions `i` and above.
pub open spec fn popcnt_from(b: u64, i: int) -> nat
    decreases 64 - i,
{
    if i < 0 || i >= 64 {
        0
    } else {
        (if bit64(b, i as u64) {
            1nat
        } else {
            0nat
        }) + popcnt_from(b, i + 1)
    }
}

/// Number of set bits of `b`.
pub open spec fn popcnt(b: u64) -> nat {
    popcnt_from(b, 0)
}

pub proof fn lemma_popcnt_from_bound(b: u64, i: int)
    ensures
        popcnt_from(b, i) <= 64 - i || i > 64,
    decreases 64 - i,
{
    if i >= 0 && i < 64 {
        lemma_popcnt_from_bound(b, i + 1);
    }
}

/// Membership in a union of bit sets.
pub proof fn lemma_or_bit()
    by (bit_vector)
    ensures
        forall|a: u64, b: u64, i: u64|
            #[trigger] ((a | b) & (1u64 << i)) != 0 <==> (a & (1u64 << i)) != 0 || (b & (1u64 << i))
                != 0,
{
}

/// Membership in an intersection of bit sets.
pub proof fn lemma_and_bit()
    by (bit_vector)
    ensures
        forall|a: u64, b: u64, i: u64|
            #[trigger] ((a & b) & (1u64 << i)) != 0 <==> (a & (1u64 << i)) != 0 && (b & (1u64 << i))
                != 0,
{
}

/// Membership in a symmetric difference of bit sets.
pub proof fn lemma_xor_bit()
    by (bit_vector)
    ensures
        forall|a: u64, b: u64, i: u64|
            #[trigger] ((a ^ b) & (1u64 << i)) != 0 <==> ((a & (1u64 << i)) != 0) != ((b & (1u64
                << i)) != 0),
{
}

/// The empty set holds no square.
pub proof fn lemma_zero_bit()
    by (bit_vector)
    ensures
        forall|i: u64| #[trigger] (0u64 & (1u64 << i)) == 0,
        forall|a: u64| #[trigger] (0u64 & a) == 0,
{
}

/// Membership in a complement of a bit set.
pub proof fn lemma_andnot_bit()
    by (bit_vector)
    ensures
        forall|a: u64, b: u64, i: u64|
            i < 64 ==> (#[trigger] ((a & !b) & (1u64 << i)) != 0 <==> (a & (1u64 << i)) != 0 && (b
                & (1u64 << i)) == 0),
{
}

/// Clearing the least set bit removes exactly the lowest set bit `k`.
pub proof fn lemma_clear_lsb_removes(b: u64, k: u64)
    by (bit_vector)
    requires
        k < 64,
        (b >> k) & 1u64 == 1u64,
        b << ((64 - k) as u64) == 0,
    ensures
        b & ((b - 1) as u64) == b & !(1u64 << k),
{
}

/// Sets with an empty intersection share no square.
pub proof fn lemma_disjoint_bits()
    by (bit_vector)
    ensures
        forall|a: u64, b: u64, i: u64|
            a & b == 0 && i < 64 ==> !(#[trigger] (a & (1u64 << i)) != 0 && #[trigger] (b & (1u64
                << i)) != 0),
{
}

/// Two single-bit masks meet exactly when their indices agree, and a set
/// meeting a single-bit mask holds it whole.
pub proof fn lemma_single_bit()
    by (bit_vector)
    ensures
        forall|i: u64| i < 64 ==> #[trigger] (1u64 << i) != 0,
        forall|i: u64, j: u64|
            i < 64 && j < 64 ==> (#[trigger] ((1u64 << i) & (1u64 << j)) != 0 <==> i == j),
        forall|x: u64, s: u64|
            s < 64 ==> ((#[trigger] (x & (1u64 << s)) != 0) == ((1u64 << s) & x == (1u64 << s))),
        forall|x: u64, s: u64| #[trigger] ((1u64 << s) & x) == x & (1u64 << s),
{
}

/// Clearing the least set bit strictly decreases the value.
pub proof fn lemma_clear_lsb_decreases()
    by (bit_vector)
    ensures
        forall|b: u64| b != 0 ==> #[trigger] (b & ((b - 1) as u64)) < b,
{
}

/// A subset keeps its members, and clearing its least set bit keeps it a
/// subset.
pub proof fn lemma_subset_bits()
    by (bit_vector)
    ensures
        forall|b: u64, o: u64, k: u64|
            #[trigger] (b & o) == b && #[trigger] (b & (1u64 << k)) != 0 ==> (o & (1u64 << k))
                != 0,
        forall|b: u64, o: u64|
            b & o == b ==> #[trigger] ((b & ((b - 1) as u64)) & o) == (b & ((b - 1) as u64)),
        forall|a: u64, o: u64| #[trigger] ((a & o) & o) == a & o,
        forall|a: u64| #[trigger] (a & a) == a,
        forall|b: u64, o: u64| #[trigger] (b & o) == b ==> b <= o,
        forall|b: u64, k: u64| k < 64 ==> (((b >> k) & 1 == 1) <==> #[trigger] (b & (1u64 << k)) != 0),
{
}

/// Clearing the least set bit removes that bit and nothing else.
pub proof fn lemma_clear_lsb_exact(b: u64)
    requires
        b != 0,
    ensures
        forall|k: u64|
            k < 64 ==> (#[trigger] bit64(b & ((b - 1) as u64), k) <==> (bit64(b, k) && k
                != u64_trailing_zeros(b))),
{
    vstd::std_specs::bits::axiom_u64_trailing_zeros(b);
    lemma_andnot_bit();
    lemma_single_bit();
    let tz = u64_trailing_zeros(b) as u64;
    lemma_clear_lsb_removes(b, tz);
    assert forall|k: u64| k < 64 implies (#[trigger] bit64(b & ((b - 1) as u64), k) <==> (bit64(
        b,
        k,
    ) && k != tz)) by {
        assert(((b & !(1u64 << tz)) & (1u64 << k)) != 0 <==> (b & (1u64 << k)) != 0 && ((1u64
            << tz) & (1u64 << k)) == 0);
    }
}

/// Taking a held mask out of a set and putting it back changes nothing.
pub proof fn lemma_xor_or_same()
    by (bit_vector)
    ensures
        forall|x: u64, m: u64| m & x == m ==> #[trigger] ((x ^ m) | m) == x,
{
}

/// Moving a mask out and back restores the original set: taking `f` out,
/// putting `t` in, taking `t` out and putting `f` back changes nothing.
pub proof fn lemma_move_and_back()
    by (bit_vector)
    ensures
        forall|a: u64, f: u64, t: u64|
            f & a == f && t & a == 0 && t & f == 0 ==> #[trigger] ((((a ^ f) | t) ^ t) | f) == a,
{
}

} // verus!
