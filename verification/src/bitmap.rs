//! The signer bitmap of a certificate: one bit per seat of the committee.
use vstd::prelude::*;

verus! {

/// Whether the bit of seat `seat` is set in `bitmap`.
pub open spec fn has_bit(bitmap: u128, seat: nat) -> bool {
    seat < 128 && (bitmap >> (seat as u128)) & 1u128 == 1u128
}

/// `bitmap` with the bit of `seat` set.
pub open spec fn with_bit(bitmap: u128, seat: nat) -> u128 {
    bitmap | (1u128 << (seat as u128))
}

/// Number of set bits of `bitmap` among the seats below `limit`.
pub open spec fn ones_below(bitmap: u128, limit: nat) -> nat
    decreases limit,
{
    if limit == 0 {
        0
    } else {
        ones_below(bitmap, (limit - 1) as nat) + if has_bit(bitmap, (limit - 1) as nat) {
            1nat
        } else {
            0nat
        }
    }
}

/// Number of set bits of `bitmap`.
pub open spec fn count_ones(bitmap: u128) -> nat {
    ones_below(bitmap, 128)
}

/// Setting one bit changes that bit and no other.
pub proof fn lemma_with_bit(bitmap: u128, seat: nat, other: nat)
    requires
        seat < 128,
    ensures
        has_bit(with_bit(bitmap, seat), other) == (other == seat || has_bit(bitmap, other)),
{
    if other < 128 {
        let s = seat as u128;
        let o = other as u128;
        assert(((bitmap | (1u128 << s)) >> o) & 1u128 == 1u128 <==> (o == s || (bitmap >> o) & 1u128
            == 1u128)) by (bit_vector)
            requires
                s < 128,
                o < 128,
        ;
    }
}

/// The empty bitmap has no bit set.
pub proof fn lemma_empty_bitmap(seat: nat)
    ensures
        !has_bit(0, seat),
{
    if seat < 128 {
        let s = seat as u128;
        assert((0u128 >> s) & 1u128 == 0u128) by (bit_vector);
    }
}

/// At most `limit` bits are set below `limit`.
pub proof fn lemma_ones_below_bound(bitmap: u128, limit: nat)
    ensures
        ones_below(bitmap, limit) <= limit,
    decreases limit,
{
    if limit > 0 {
        lemma_ones_below_bound(bitmap, (limit - 1) as nat);
    }
}

/// The empty bitmap counts no bit.
pub proof fn lemma_count_empty(limit: nat)
    ensures
        ones_below(0, limit) == 0,
    decreases limit,
{
    if limit > 0 {
        lemma_count_empty((limit - 1) as nat);
        lemma_empty_bitmap((limit - 1) as nat);
    }
}

/// Setting a bit that was clear adds one to the count of every range that
/// holds the seat, and leaves the count of every other range as it was.
pub proof fn lemma_ones_below_with_bit(bitmap: u128, seat: nat, limit: nat)
    requires
        seat < 128,
        !has_bit(bitmap, seat),
    ensures
        ones_below(with_bit(bitmap, seat), limit) == ones_below(bitmap, limit) + if seat < limit {
            1nat
        } else {
            0nat
        },
    decreases limit,
{
    if limit > 0 {
        lemma_ones_below_with_bit(bitmap, seat, (limit - 1) as nat);
        lemma_with_bit(bitmap, seat, (limit - 1) as nat);
    }
}

/// Setting a bit that was clear adds one to the number of set bits.
pub proof fn lemma_count_with_bit(bitmap: u128, seat: nat)
    requires
        seat < 128,
        !has_bit(bitmap, seat),
    ensures
        count_ones(with_bit(bitmap, seat)) == count_ones(bitmap) + 1,
{
    lemma_ones_below_with_bit(bitmap, seat, 128);
}

/// Sets the bit of `seat`.
pub fn set_bit(bitmap: u128, seat: usize) -> (r: u128)
    requires
        seat < 128,
    ensures
        r == with_bit(bitmap, seat as nat),
{
    let shift: u32 = seat as u32;
    let mask: u128 = 1u128 << shift;
    assert(1u128 << shift == 1u128 << (seat as u128)) by (bit_vector)
        requires
            shift == seat as u32,
            seat < 128,
    ;
    bitmap | mask
}

/// Tells whether the bit of `seat` is set.
pub fn test_bit(bitmap: u128, seat: usize) -> (r: bool)
    ensures
        r == has_bit(bitmap, seat as nat),
{
    if seat >= 128 {
        return false;
    }
    let shift: u32 = seat as u32;
    assert((bitmap >> shift) == (bitmap >> (seat as u128))) by (bit_vector)
        requires
            shift == seat as u32,
            seat < 128,
    ;
    (bitmap >> shift) & 1u128 == 1u128
}

} // verus!
