//! Facts about setting, clearing and testing one bit mask in a byte or a word.

use vstd::prelude::*;

verus! {

/// Setting the bits of `m` in `x` makes them test as set and leaves every other bit
/// as it was; clearing them makes them test as clear and leaves every other bit.
pub proof fn lemma_mask_u8(x: u8, m: u8)
    requires
        m != 0,
    ensures
        (x | m) & m != 0,
        (x | m) & !m == x & !m,
        (x & !m) & m == 0,
        (x & !m) & !m == x & !m,
{
    assert((x | m) & m == m) by (bit_vector);
    assert((x | m) & !m == x & !m) by (bit_vector);
    assert((x & !m) & m == 0) by (bit_vector);
    assert((x & !m) & !m == x & !m) by (bit_vector);
}

/// Setting the bits of `m` in `x` makes them test as set and leaves every other bit
/// as it was; clearing them makes them test as clear and leaves every other bit.
pub proof fn lemma_mask_u16(x: u16, m: u16)
    requires
        m != 0,
    ensures
        (x | m) & m != 0,
        (x | m) & !m == x & !m,
        (x & !m) & m == 0,
        (x & !m) & !m == x & !m,
{
    assert((x | m) & m == m) by (bit_vector);
    assert((x | m) & !m == x & !m) by (bit_vector);
    assert((x & !m) & m == 0) by (bit_vector);
    assert((x & !m) & !m == x & !m) by (bit_vector);
}

/// A single-bit mask `m` reads the same in `x` before and after another single bit
/// `n` is set or cleared.
pub proof fn lemma_other_bit_u8(x: u8, m: u8, n: u8)
    requires
        m & n == 0,
    ensures
        ((x | n) & m != 0) == (x & m != 0),
        ((x & !n) & m != 0) == (x & m != 0),
{
    assert(m & n == 0 ==> ((x | n) & m) == (x & m)) by (bit_vector);
    assert(m & n == 0 ==> ((x & !n) & m) == (x & m)) by (bit_vector);
}

/// A single-bit mask `m` reads the same in `x` before and after another single bit
/// `n` is set or cleared.
pub proof fn lemma_other_bit_u16(x: u16, m: u16, n: u16)
    requires
        m & n == 0,
    ensures
        ((x | n) & m != 0) == (x & m != 0),
        ((x & !n) & m != 0) == (x & m != 0),
{
    assert(m & n == 0 ==> ((x | n) & m) == (x & m)) by (bit_vector);
    assert(m & n == 0 ==> ((x & !n) & m) == (x & m)) by (bit_vector);
}

} // verus!
