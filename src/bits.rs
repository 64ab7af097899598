//! Single-bit and masked-field operations on 64-bit words, with the facts
//! about them that the page-table entries rely on.

use vstd::prelude::*;

verus! {

/// Bit `i` (counting from 0 at the least significant bit) of `x` is set.
pub open spec fn bit(x: u64, i: u64) -> bool {
    (x >> i) & 1 == 1
}

/// `y` agrees with `x` on every bit but bit `b`.
pub open spec fn same_bits_except(x: u64, y: u64, b: u64) -> bool {
    forall|i: u64| i < 64 && i != b ==> #[trigger] bit(y, i) == bit(x, i)
}

/// Whether bit `b` of `x` is set.
pub fn test_bit(x: u64, b: u64) -> (r: bool)
    requires
        b < 64,
    ensures
        r == bit(x, b),
{
    assert((x & (1u64 << b) != 0) == ((x >> b) & 1 == 1)) by (bit_vector)
        requires
            b < 64,
    ;
    x & (1u64 << b) != 0
}

/// `x` with bit `b` set to `value` and every other bit kept.
pub fn with_bit(x: u64, b: u64, value: bool) -> (r: u64)
    requires
        b < 64,
    ensures
        bit(r, b) == value,
        same_bits_except(x, r, b),
        b < 12 || b >= 62 ==> r & 0x3fff_ffff_ffff_f000 == x & 0x3fff_ffff_ffff_f000,
{
    if value {
        let r = x | (1u64 << b);
        assert(b < 12 || b >= 62 ==> r & 0x3fff_ffff_ffff_f000 == x & 0x3fff_ffff_ffff_f000) by (bit_vector)
            requires
                b < 64,
                r == x | (1u64 << b),
        ;
        assert(((r >> b) & 1) == 1) by (bit_vector)
            requires
                b < 64,
                r == x | (1u64 << b),
        ;
        assert forall|i: u64| i < 64 && i != b implies #[trigger] bit(r, i) == bit(x, i) by {
            assert((r >> i) & 1 == (x >> i) & 1) by (bit_vector)
                requires
                    b < 64,
                    i < 64,
                    i != b,
                    r == x | (1u64 << b),
            ;
        }
        r
    } else {
        let r = x & !(1u64 << b);
        assert(b < 12 || b >= 62 ==> r & 0x3fff_ffff_ffff_f000 == x & 0x3fff_ffff_ffff_f000) by (bit_vector)
            requires
                b < 64,
                r == x & !(1u64 << b),
        ;
        assert(((r >> b) & 1) == 0) by (bit_vector)
            requires
                b < 64,
                r == x & !(1u64 << b),
        ;
        assert forall|i: u64| i < 64 && i != b implies #[trigger] bit(r, i) == bit(x, i) by {
            assert((r >> i) & 1 == (x >> i) & 1) by (bit_vector)
                requires
                    b < 64,
                    i < 64,
                    i != b,
                    r == x & !(1u64 << b),
            ;
        }
        r
    }
}

/// `x` with the bits selected by `mask` replaced by `field`, which has no bit
/// outside `mask`.
pub fn with_field(x: u64, mask: u64, field: u64) -> (r: u64)
    requires
        field & !mask == 0,
    ensures
        r & mask == field,
        r & !mask == x & !mask,
{
    let r = (x & !mask) | field;
    assert(r & mask == field && r & !mask == x & !mask) by (bit_vector)
        requires
            field & !mask == 0,
            r == (x & !mask) | field,
    ;
    r
}

} // verus!
