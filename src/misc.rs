//! Small arithmetic helpers shared by the allocators.

use vstd::prelude::*;

verus! {

/// `n` shifted right by `b` bits equals one: bit `b` is the highest bit set.
pub open spec fn is_highest_bit(n: u64, b: u8) -> bool {
    b < 64 && (n >> (b as u64)) == 1
}

/// Return the position (counting from 0 at the least significant bit) of the
/// highest bit set in `n`; 0 if `n` is zero.
pub fn first_bit_pos(n: usize) -> (r: u8)
    ensures
        n == 0 ==> r == 0,
        n != 0 ==> is_highest_bit(n as u64, r),
{
    let x: u64 = n as u64;
    let mut i: u64 = 64;
    while i > 0
        invariant
            i <= 64,
            x == n as u64,
            i == 64 || x >> i == 0,
        decreases i,
    {
        let j: u64 = i - 1;
        if x & (1u64 << j) > 0 {
            assert(x >> j == 1 && x != 0) by (bit_vector)
                requires
                    j < 64,
                    j + 1 == 64 || x >> ((j + 1) as u64) == 0,
                    x & (1u64 << j) > 0,
            ;
            let r: u8 = j as u8;
            return r;
        }
        assert(x >> j == 0) by (bit_vector)
            requires
                j < 64,
                j + 1 == 64 || x >> ((j + 1) as u64) == 0,
                x & (1u64 << j) == 0,
        ;
        i = j;
    }
    assert(x == 0) by (bit_vector)
        requires x >> 0u64 == 0;
    0
}

/// The smallest multiple of `multiple` that is not below `n`.
pub open spec fn aligned_up(n: int, multiple: int) -> int {
    if n % multiple == 0 {
        n
    } else {
        n + (multiple - n % multiple)
    }
}

/// Return the next integer multiple of `multiple`, or `n` itself when it is
/// already a multiple of `multiple`.
pub fn align_up(n: u64, multiple: u64) -> (r: u64)
    requires
        multiple > 0,
        n + multiple - 1 <= u64::MAX,
    ensures
        r == aligned_up(n as int, multiple as int),
        r % multiple == 0,
        n <= r < n + multiple,
{
    let rem: u64 = n % multiple;
    if rem == 0 {
        n
    } else {
        proof {
            assert((n + (multiple - rem)) % (multiple as int) == 0) by (nonlinear_arith)
                requires
                    multiple > 0,
                    rem == n % multiple,
            {
                vstd::arithmetic::div_mod::lemma_fundamental_div_mod(n as int, multiple as int);
                vstd::arithmetic::div_mod::lemma_mod_multiples_basic(
                    n as int / multiple as int + 1,
                    multiple as int,
                );
            }
        }
        n + (multiple - rem)
    }
}

} // verus!
