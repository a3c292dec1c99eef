use vstd::prelude::*;

verus! {

/// Bit `k` of a byte counted from the most significant bit (`k == 0` is the MSB),
/// which is how the screen packs its leftmost pixel.
pub open spec fn msb_bit(b: u8, k: int) -> bool {
    (b >> ((7 - k) as u8)) & 1u8 == 1u8
}

pub proof fn lemma_or_mask(b: u8, k: u8, j: u8)
    requires
        k < 8,
        j < 8,
    ensures
        msb_bit(b | (0x80u8 >> k), j as int) == (j == k || msb_bit(b, j as int)),
{
    assert(((b | (0x80u8 >> k)) >> (7 - j) as u8) & 1u8 == 1u8 <==> (j == k || (b >> (7 - j) as u8)
        & 1u8 == 1u8)) by (bit_vector)
        requires
            k < 8,
            j < 8,
    ;
}

pub proof fn lemma_clear_mask(b: u8, k: u8, j: u8)
    requires
        k < 8,
        j < 8,
    ensures
        msb_bit(b & !(0x80u8 >> k), j as int) == (j != k && msb_bit(b, j as int)),
{
    assert(((b & !(0x80u8 >> k)) >> (7 - j) as u8) & 1u8 == 1u8 <==> (j != k && (b >> (7 - j) as u8)
        & 1u8 == 1u8)) by (bit_vector)
        requires
            k < 8,
            j < 8,
    ;
}

pub proof fn lemma_or_bits(a: u8, b: u8, j: u8)
    requires
        j < 8,
    ensures
        msb_bit(a | b, j as int) == (msb_bit(a, j as int) || msb_bit(b, j as int)),
{
    assert(((a | b) >> (7 - j) as u8) & 1u8 == 1u8 <==> ((a >> (7 - j) as u8) & 1u8 == 1u8 || (b >> (7
        - j) as u8) & 1u8 == 1u8)) by (bit_vector)
        requires
            j < 8,
    ;
}

pub proof fn lemma_not_bits(a: u8, j: u8)
    requires
        j < 8,
    ensures
        msb_bit(!a, j as int) == !msb_bit(a, j as int),
{
    assert(((!a) >> (7 - j) as u8) & 1u8 == 1u8 <==> !((a >> (7 - j) as u8) & 1u8 == 1u8))
        by (bit_vector)
        requires
            j < 8,
    ;
}

pub proof fn lemma_zero_bits(j: u8)
    requires
        j < 8,
    ensures
        !msb_bit(0u8, j as int),
{
    assert(!((0u8 >> (7 - j) as u8) & 1u8 == 1u8)) by (bit_vector)
        requires
            j < 8,
    ;
}

/// One step of the right shift of a row: the byte takes its own bits one place to the
/// right and the last bit of the byte before it in front.
pub proof fn lemma_shift_right_bits(cur: u8, carry: u8, j: u8)
    requires
        j < 8,
        carry <= 1,
    ensures
        msb_bit(((cur >> 1u8) | (carry << 7u8)) as u8, j as int) == if j == 0 {
            carry == 1
        } else {
            msb_bit(cur, (j - 1) as int)
        },
{
    assert((((cur >> 1u8) | (carry << 7u8)) >> (7 - j) as u8) & 1u8 == 1u8 <==> (if j == 0 {
        carry == 1
    } else {
        (cur >> (7 - (j - 1)) as u8) & 1u8 == 1u8
    })) by (bit_vector)
        requires
            j < 8,
            carry <= 1,
    ;
}

/// The last bit of a byte, as a number, is the pixel at its right end.
pub proof fn lemma_low_bit(b: u8)
    ensures
        (b & 1u8) <= 1,
        msb_bit(b, 7) == (b & 1u8 == 1u8),
{
    assert((b & 1u8) <= 1) by (bit_vector);
    assert(((b >> 0u8) & 1u8 == 1u8) == (b & 1u8 == 1u8)) by (bit_vector);
}

} // verus!
