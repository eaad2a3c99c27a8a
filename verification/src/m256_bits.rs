//! The bits of a 256-bit word, and what the bitwise operations do to each of them.

use vstd::prelude::*;

use crate::m256::{shift_left, shift_right, M256};

verus! {

/// Bit `i` of a 128-bit lane; `false` for `i >= 128`.
pub open spec fn lane_bit(x: u128, i: nat) -> bool {
    i < 128 && (x >> (i as u128)) & 1 == 1
}

/// The lane whose lowest `n` bits are set and whose other bits are clear.
pub open spec fn low_mask(n: nat) -> u128 {
    if n >= 128 {
        u128::MAX
    } else {
        !(u128::MAX << (n as u128))
    }
}

impl M256 {
    /// Bit `i` of the value; `false` for `i >= 256`.
    pub open spec fn bit(self, i: nat) -> bool {
        if i < 128 {
            lane_bit(self.lo, i)
        } else {
            lane_bit(self.hi, (i - 128) as nat)
        }
    }
}

/// Lanes that agree in their lowest `n` bits agree under a mask of those bits.
proof fn lemma_low_bits_equal(x: u128, y: u128, n: nat)
    requires
        n <= 128,
        forall|i: nat| i < n ==> lane_bit(x, i) == lane_bit(y, i),
    ensures
        n < 128 ==> x & !(u128::MAX << (n as u128)) == y & !(u128::MAX << (n as u128)),
        n == 128 ==> x == y,
    decreases n,
{
    if n == 0 {
        assert(x & !(u128::MAX << 0) == y & !(u128::MAX << 0)) by (bit_vector);
    } else {
        let k = (n - 1) as u128;
        lemma_low_bits_equal(x, y, (n - 1) as nat);
        assert(lane_bit(x, k as nat) == lane_bit(y, k as nat));
        if n < 128 {
            let m = n as u128;
            assert(x & !(u128::MAX << m) == y & !(u128::MAX << m)) by (bit_vector)
                requires
                    x & !(u128::MAX << k) == y & !(u128::MAX << k),
                    ((x >> k) & 1 == 1) == ((y >> k) & 1 == 1),
                    k < 127,
                    m == k + 1,
            ;
        } else {
            assert(x == y) by (bit_vector)
                requires
                    x & !(u128::MAX << k) == y & !(u128::MAX << k),
                    ((x >> k) & 1 == 1) == ((y >> k) & 1 == 1),
                    k == 127,
            ;
        }
    }
}

/// Lanes that agree in every bit are equal.
pub proof fn lemma_lane_bits_equal(x: u128, y: u128)
    requires
        forall|i: nat| i < 128 ==> lane_bit(x, i) == lane_bit(y, i),
    ensures
        x == y,
{
    lemma_low_bits_equal(x, y, 128);
}

/// Values that agree in every bit are equal.
pub proof fn lemma_bits_equal(x: M256, y: M256)
    requires
        forall|i: nat| i < 256 ==> x.bit(i) == y.bit(i),
    ensures
        x == y,
{
    assert forall|i: nat| i < 128 implies lane_bit(x.lo, i) == lane_bit(y.lo, i) by {
        assert(x.bit(i) == y.bit(i));
    }
    assert forall|i: nat| i < 128 implies lane_bit(x.hi, i) == lane_bit(y.hi, i) by {
        assert(x.bit(i + 128) == y.bit(i + 128));
    }
    lemma_lane_bits_equal(x.lo, y.lo);
    lemma_lane_bits_equal(x.hi, y.hi);
}

/// The zero lane has no bit set.
pub proof fn lemma_zero_lane_bits(i: nat)
    ensures
        !lane_bit(0, i),
{
    if i < 128 {
        let j = i as u128;
        assert((0u128 >> j) & 1 == 0) by (bit_vector);
    }
}

/// What the bitwise operations do to each bit of a lane.
pub proof fn lemma_lane_bitwise_bits(x: u128, y: u128, i: nat)
    requires
        i < 128,
    ensures
        lane_bit(x & y, i) == (lane_bit(x, i) && lane_bit(y, i)),
        lane_bit(x | y, i) == (lane_bit(x, i) || lane_bit(y, i)),
        lane_bit(x ^ y, i) == (lane_bit(x, i) != lane_bit(y, i)),
        lane_bit(x ^ u128::MAX, i) == !lane_bit(x, i),
{
    let j = i as u128;
    assert({
        &&& (((x & y) >> j) & 1 == 1) == (((x >> j) & 1 == 1) && ((y >> j) & 1 == 1))
        &&& (((x | y) >> j) & 1 == 1) == (((x >> j) & 1 == 1) || ((y >> j) & 1 == 1))
        &&& (((x ^ y) >> j) & 1 == 1) == (((x >> j) & 1 == 1) != ((y >> j) & 1 == 1))
        &&& (((x ^ 0xffff_ffff_ffff_ffff_ffff_ffff_ffff_ffffu128) >> j) & 1 == 1) == !((x >> j) & 1
            == 1)
    }) by (bit_vector)
        requires
            j < 128,
    ;
}

/// What the bitwise operations do to each bit of a value.
pub proof fn lemma_bitwise_bits(x: M256, y: M256, i: nat)
    requires
        i < 256,
    ensures
        (M256 { lo: x.lo & y.lo, hi: x.hi & y.hi }).bit(i) == (x.bit(i) && y.bit(i)),
        (M256 { lo: x.lo | y.lo, hi: x.hi | y.hi }).bit(i) == (x.bit(i) || y.bit(i)),
        (M256 { lo: x.lo ^ y.lo, hi: x.hi ^ y.hi }).bit(i) == (x.bit(i) != y.bit(i)),
        (M256 { lo: x.lo ^ u128::MAX, hi: x.hi ^ u128::MAX }).bit(i) == !x.bit(i),
{
    if i < 128 {
        lemma_lane_bitwise_bits(x.lo, y.lo, i);
    } else {
        lemma_lane_bitwise_bits(x.hi, y.hi, (i - 128) as nat);
    }
}

/// The lane with its lowest `n` bits set has exactly those bits.
pub proof fn lemma_low_mask_bits(n: nat, i: nat)
    requires
        n <= 128,
    ensures
        lane_bit(low_mask(n), i) == (i < n),
{
    if i < 128 {
        let j = i as u128;
        if n < 128 {
            let m = n as u128;
            assert(((!(u128::MAX << m) >> j) & 1 == 1) == (j < m)) by (bit_vector)
                requires
                    m < 128,
                    j < 128,
            ;
        } else {
            assert((u128::MAX >> j) & 1 == 1) by (bit_vector)
                requires
                    j < 128,
            ;
        }
    }
}

/// The bits of a value shifted right are those of the value, each `rhs` places lower.
pub proof fn lemma_shift_right_bits(x: M256, rhs: nat, i: nat)
    ensures
        shift_right(x, rhs).bit(i) == (i < 256 && x.bit(i + rhs)),
{
    let r = shift_right(x, rhs);
    let (lo, hi) = (x.lo, x.hi);
    if i >= 256 {
    } else if rhs >= 256 {
        let j: u128 = (i % 128) as u128;
        lemma_zero_lane_bits(j as nat);
    } else if rhs == 0 {
    } else if rhs >= 128 {
        let s = (rhs - 128) as u128;
        let j: u128 = (i % 128) as u128;
        lemma_zero_lane_bits(j as nat);
        if i < 128 {
            assert(((hi >> s) >> j) & 1 == (if s + j < 128 {
                (hi >> ((s + j) as u128)) & 1
            } else {
                0
            })) by (bit_vector)
                requires
                    s < 128,
                    j < 128,
            ;
        }
    } else {
        let s = rhs as u128;
        let t = (128 - rhs) as u128;
        let j: u128 = (i % 128) as u128;
        if i < 128 {
            assert((((lo >> s) | (hi << t)) >> j) & 1 == (if s + j < 128 {
                (lo >> ((s + j) as u128)) & 1
            } else {
                (hi >> ((s + j - 128) as u128)) & 1
            })) by (bit_vector)
                requires
                    0 < s < 128,
                    t == 128 - s,
                    j < 128,
            ;
        } else {
            assert(((hi >> s) >> j) & 1 == (if s + j < 128 {
                (hi >> ((s + j) as u128)) & 1
            } else {
                0
            })) by (bit_vector)
                requires
                    s < 128,
                    j < 128,
            ;
        }
    }
}

/// The bits of a value shifted left are those of the value, each `rhs` places higher.
pub proof fn lemma_shift_left_bits(x: M256, rhs: nat, i: nat)
    ensures
        shift_left(x, rhs).bit(i) == (rhs <= i < 256 && x.bit((i - rhs) as nat)),
{
    let (lo, hi) = (x.lo, x.hi);
    if i >= 256 {
    } else if rhs >= 256 {
        let j: u128 = (i % 128) as u128;
        lemma_zero_lane_bits(j as nat);
    } else if rhs == 0 {
    } else if rhs >= 128 {
        let s = (rhs - 128) as u128;
        let j: u128 = (i % 128) as u128;
        lemma_zero_lane_bits(j as nat);
        if i >= 128 {
            assert(((lo << s) >> j) & 1 == (if j >= s {
                (lo >> ((j - s) as u128)) & 1
            } else {
                0
            })) by (bit_vector)
                requires
                    s < 128,
                    j < 128,
            ;
        }
    } else {
        let s = rhs as u128;
        let t = (128 - rhs) as u128;
        let j: u128 = (i % 128) as u128;
        if i < 128 {
            assert(((lo << s) >> j) & 1 == (if j >= s {
                (lo >> ((j - s) as u128)) & 1
            } else {
                0
            })) by (bit_vector)
                requires
                    s < 128,
                    j < 128,
            ;
        } else {
            assert((((hi << s) | (lo >> t)) >> j) & 1 == (if j >= s {
                (hi >> ((j - s) as u128)) & 1
            } else {
                (lo >> ((128 + j - s) as u128)) & 1
            })) by (bit_vector)
                requires
                    0 < s < 128,
                    t == 128 - s,
                    j < 128,
            ;
        }
    }
}

} // verus!
