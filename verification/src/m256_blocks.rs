//! A 256-bit word as a row of blocks of `2^k` bits each, block 0 the least significant.

use vstd::arithmetic::power2::{lemma2_to64, lemma_pow2_pos, lemma_pow2_strictly_increases, pow2};
use vstd::prelude::*;

use crate::log2::pow2_u64;
use crate::m256::M256;
use crate::m256_bits::{
    lane_bit,
    lemma_bitwise_bits,
    lemma_lane_bitwise_bits,
    lemma_low_mask_bits,
    lemma_shift_left_bits,
    lemma_shift_right_bits,
    lemma_zero_lane_bits,
    low_mask,
};

verus! {

/// Whether block `i` of `2^log_bits` bits lies within the 256 bits of a value.
pub open spec fn block_in_range(log_bits: nat, i: nat) -> bool {
    log_bits <= 7 && (i + 1) * pow2(log_bits) <= 256
}

/// The length of a block of `2^log_bits` bits is at most 128 for `log_bits <= 7`.
pub proof fn lemma_block_len(log_bits: nat)
    requires
        log_bits <= 7,
    ensures
        1 <= pow2(log_bits) <= 128,
{
    lemma2_to64();
    lemma_pow2_pos(log_bits);
    if log_bits < 7 {
        lemma_pow2_strictly_increases(log_bits, 7);
    }
}

/// The length of a block and the lane that masks one block.
fn block_len_and_mask(log_bits: usize) -> (r: (usize, u128))
    requires
        log_bits <= 7,
    ensures
        r.0 == pow2(log_bits as nat),
        1 <= r.0 <= 128,
        r.1 == low_mask(r.0 as nat),
{
    proof {
        lemma_block_len(log_bits as nat);
    }
    let len = pow2_u64(log_bits) as usize;
    let mask: u128 = if len >= 128 {
        u128::MAX
    } else {
        !(u128::MAX << (len as u128))
    };
    (len, mask)
}

impl M256 {
    /// Block `i` of `2^log_bits` bits, in the low bits of the result.
    pub fn get_subvalue(&self, log_bits: usize, i: usize) -> (r: u128)
        requires
            block_in_range(log_bits as nat, i as nat),
        ensures
            forall|j: nat|
                j < 128 ==> #[trigger] lane_bit(r, j) == (j < pow2(log_bits as nat) && self.bit(
                    (i * pow2(log_bits as nat) + j) as nat,
                )),
    {
        let (len, mask) = block_len_and_mask(log_bits);
        assert(i * len + len <= 256) by (nonlinear_arith)
            requires
                (i + 1) * len <= 256,
        ;
        let shifted = *self >> (i * len);
        let r = shifted.lo & mask;
        proof {
            assert forall|j: nat| j < 128 implies #[trigger] lane_bit(r, j) == (j < len && self.bit(
                (i * len + j) as nat,
            )) by {
                lemma_lane_bitwise_bits(shifted.lo, mask, j);
                lemma_low_mask_bits(len as nat, j);
                lemma_shift_right_bits(*self, (i * len) as nat, j);
            }
        }
        r
    }

    /// Replaces block `i` of `2^log_bits` bits by the low bits of `val`.
    pub fn set_subvalue(&mut self, log_bits: usize, i: usize, val: u128)
        requires
            block_in_range(log_bits as nat, i as nat),
        ensures
            forall|p: nat|
                p < 256 ==> #[trigger] final(self).bit(p) == (if i * pow2(log_bits as nat) <= p < (i
                    + 1) * pow2(log_bits as nat) {
                    lane_bit(val, (p - i * pow2(log_bits as nat)) as nat)
                } else {
                    old(self).bit(p)
                }),
    {
        let (len, mask) = block_len_and_mask(log_bits);
        assert(i * len + len <= 256 && (i + 1) * len == i * len + len) by (nonlinear_arith)
            requires
                (i + 1) * len <= 256,
        ;
        let shift = i * len;
        let mask_word = M256 { lo: mask, hi: 0 };
        let val_word = M256 { lo: val & mask, hi: 0 };
        let field = mask_word << shift;
        let value = val_word << shift;
        let inverse = field ^ M256::ones();
        let kept = *self & inverse;
        let ghost before = *self;
        *self = kept | value;
        proof {
            assert forall|p: nat| p < 256 implies #[trigger] self.bit(p) == (if shift <= p < shift
                + len {
                lane_bit(val, (p - shift) as nat)
            } else {
                before.bit(p)
            }) by {
                lemma_shift_left_bits(mask_word, shift as nat, p);
                lemma_shift_left_bits(val_word, shift as nat, p);
                lemma_bitwise_bits(field, M256::ones(), p);
                lemma_bitwise_bits(before, inverse, p);
                lemma_bitwise_bits(kept, value, p);
                if p >= shift {
                    let q = (p - shift) as nat;
                    if q < 128 {
                        lemma_low_mask_bits(len as nat, q);
                        lemma_lane_bitwise_bits(val, mask, q);
                    } else {
                        lemma_zero_lane_bits((q - 128) as nat);
                    }
                }
            }
        }
    }
}

/// Gathers the low lanes of entries `i` and `j` in entry `i`, and their high lanes in entry
/// `j`.
pub fn unpack_128b_lo_hi(data: &mut Vec<M256>, i: usize, j: usize)
    requires
        i < old(data).len(),
        j < old(data).len(),
    ensures
        final(data)@ == old(data)@.update(
            i as int,
            M256 { lo: old(data)[i as int].lo, hi: old(data)[j as int].lo },
        ).update(j as int, M256 { lo: old(data)[i as int].hi, hi: old(data)[j as int].hi }),
{
    let a = data[i];
    let b = data[j];
    data.set(i, M256 { lo: a.lo, hi: b.lo });
    data.set(j, M256 { lo: a.hi, hi: b.hi });
}

/// The lane in which the even blocks of `2^log_block_len` bits are set, for blocks of at
/// most 64 bits.
pub open spec fn even_blocks_mask(log_block_len: nat) -> u128 {
    if log_block_len == 0 {
        0x5555_5555_5555_5555_5555_5555_5555_5555
    } else if log_block_len == 1 {
        0x3333_3333_3333_3333_3333_3333_3333_3333
    } else if log_block_len == 2 {
        0x0f0f_0f0f_0f0f_0f0f_0f0f_0f0f_0f0f_0f0f
    } else if log_block_len == 3 {
        0x00ff_00ff_00ff_00ff_00ff_00ff_00ff_00ff
    } else if log_block_len == 4 {
        0x0000_ffff_0000_ffff_0000_ffff_0000_ffff
    } else if log_block_len == 5 {
        0x0000_0000_ffff_ffff_0000_0000_ffff_ffff
    } else {
        0x0000_0000_0000_0000_ffff_ffff_ffff_ffff
    }
}

/// What interleaving does to two lanes: the odd blocks of the first and the even blocks
/// of the second change places.
pub open spec fn interleave_lanes(a: u128, b: u128, log_block_len: nat) -> (u128, u128) {
    let len = pow2(log_block_len) as u128;
    let moved = ((a >> len) ^ b) & even_blocks_mask(log_block_len);
    (a ^ (moved << len), b ^ moved)
}

/// Bit `p` of one of the two values that interleaving gives. In the first, an even block
/// is that block of `a` and an odd block is the block before it of `b`; in the second,
/// an even block is the block after it of `a` and an odd block is that block of `b`.
pub open spec fn interleaved_bit(a: M256, b: M256, log_block_len: nat, second: bool, p: nat) -> bool {
    let len = pow2(log_block_len);
    let even = (p / len) % 2 == 0;
    if !second {
        if even {
            a.bit(p)
        } else {
            b.bit((p - len) as nat)
        }
    } else {
        if even {
            a.bit(p + len)
        } else {
            b.bit(p)
        }
    }
}

proof fn lemma_interleave_lane_step(
    a: u128,
    b: u128,
    c: u128,
    d: u128,
    j: u128,
    h: u128,
    len: u128,
    m: u128,
)
    by (bit_vector)
    requires
        j < 128,
        c == a ^ ((((a >> len) ^ b) & m) << len),
        d == b ^ (((a >> len) ^ b) & m),
        (h == 0 && len == 1 && m == 0x5555_5555_5555_5555_5555_5555_5555_5555) || (h == 1 && len
            == 2 && m == 0x3333_3333_3333_3333_3333_3333_3333_3333) || (h == 2 && len == 4 && m
            == 0x0f0f_0f0f_0f0f_0f0f_0f0f_0f0f_0f0f_0f0f) || (h == 3 && len == 8 && m
            == 0x00ff_00ff_00ff_00ff_00ff_00ff_00ff_00ff) || (h == 4 && len == 16 && m
            == 0x0000_ffff_0000_ffff_0000_ffff_0000_ffff) || (h == 5 && len == 32 && m
            == 0x0000_0000_ffff_ffff_0000_0000_ffff_ffff) || (h == 6 && len == 64 && m
            == 0x0000_0000_0000_0000_ffff_ffff_ffff_ffff),
    ensures
        ((j >> h) & 1 == 0) ==> j + len < 128 && ((c >> j) & 1) == ((a >> j) & 1) && ((d >> j) & 1)
            == ((a >> ((j + len) as u128)) & 1),
        ((j >> h) & 1 != 0) ==> j >= len && ((c >> j) & 1) == ((b >> ((j - len) as u128)) & 1) && ((d
            >> j) & 1) == ((b >> j) & 1),
{
}

proof fn lemma_block_parity(j: u8, h: u8, len: u8)
    by (bit_vector)
    requires
        j < 128,
        (h == 0 && len == 1) || (h == 1 && len == 2) || (h == 2 && len == 4) || (h == 3 && len == 8)
            || (h == 4 && len == 16) || (h == 5 && len == 32) || (h == 6 && len == 64),
    ensures
        ((j >> h) & 1 == 0) <==> (j / len) % 2 == 0,
        (((j + 128) as u8) / len) % 2 == (j / len) % 2,
{
}

/// The bits of two interleaved lanes.
proof fn lemma_interleave_lanes_bits(a: u128, b: u128, log_block_len: nat, j: nat)
    requires
        log_block_len < 7,
        j < 128,
    ensures
        ({
            let (c, d) = interleave_lanes(a, b, log_block_len);
            let len = pow2(log_block_len);
            &&& (j / len) % 2 == 0 ==> j + len < 128 && lane_bit(c, j) == lane_bit(a, j) && lane_bit(
                d,
                j,
            ) == lane_bit(a, j + len)
            &&& (j / len) % 2 != 0 ==> j >= len && lane_bit(c, j) == lane_bit(b, (j - len) as nat)
                && lane_bit(d, j) == lane_bit(b, j)
            &&& ((j + 128) / len) % 2 == (j / len) % 2
        }),
{
    lemma2_to64();
    let (c, d) = interleave_lanes(a, b, log_block_len);
    lemma_interleave_lane_step(
        a,
        b,
        c,
        d,
        j as u128,
        log_block_len as u128,
        pow2(log_block_len) as u128,
        even_blocks_mask(log_block_len),
    );
    lemma_block_parity(j as u8, log_block_len as u8, pow2(log_block_len) as u8);
    let (j8, h8) = (j as u8, log_block_len as u8);
    let (j128, h128) = (j as u128, log_block_len as u128);
    assert(((j8 >> h8) & 1 == 0) == ((j128 >> h128) & 1 == 0)) by (bit_vector)
        requires
            j8 < 128,
            h8 < 7,
            j128 == j8,
            h128 == h8,
    ;
}

impl M256 {
    /// Interleaves the blocks of `2^log_block_len` bits of two values: with the blocks of
    /// `self` being `a0 a1 a2 a3 ..` and those of `other` being `b0 b1 b2 b3 ..`, the
    /// results are `a0 b0 a2 b2 ..` and `a1 b1 a3 b3 ..`.
    pub fn interleave(self, other: M256, log_block_len: usize) -> (r: (M256, M256))
        requires
            log_block_len <= 7,
        ensures
            forall|p: nat|
                p < 256 ==> #[trigger] r.0.bit(p) == interleaved_bit(
                    self,
                    other,
                    log_block_len as nat,
                    false,
                    p,
                ),
            forall|p: nat|
                p < 256 ==> #[trigger] r.1.bit(p) == interleaved_bit(
                    self,
                    other,
                    log_block_len as nat,
                    true,
                    p,
                ),
    {
        if log_block_len == 7 {
            let r = (M256 { lo: self.lo, hi: other.lo }, M256 { lo: self.hi, hi: other.hi });
            proof {
                lemma2_to64();
                assert forall|p: nat| p < 256 implies #[trigger] r.0.bit(p) == interleaved_bit(
                    self,
                    other,
                    7,
                    false,
                    p,
                ) by {
                    assert(p / 128 == (if p < 128 { 0int } else { 1int }));
                }
                assert forall|p: nat| p < 256 implies #[trigger] r.1.bit(p) == interleaved_bit(
                    self,
                    other,
                    7,
                    true,
                    p,
                ) by {
                    assert(p / 128 == (if p < 128 { 0int } else { 1int }));
                }
            }
            return r;
        }
        proof {
            lemma_block_len(log_block_len as nat);
            lemma2_to64();
        }
        let len = pow2_u64(log_block_len) as u128;
        let mask: u128 = if log_block_len == 0 {
            0x5555_5555_5555_5555_5555_5555_5555_5555
        } else if log_block_len == 1 {
            0x3333_3333_3333_3333_3333_3333_3333_3333
        } else if log_block_len == 2 {
            0x0f0f_0f0f_0f0f_0f0f_0f0f_0f0f_0f0f_0f0f
        } else if log_block_len == 3 {
            0x00ff_00ff_00ff_00ff_00ff_00ff_00ff_00ff
        } else if log_block_len == 4 {
            0x0000_ffff_0000_ffff_0000_ffff_0000_ffff
        } else if log_block_len == 5 {
            0x0000_0000_ffff_ffff_0000_0000_ffff_ffff
        } else {
            0x0000_0000_0000_0000_ffff_ffff_ffff_ffff
        };
        let moved_lo = ((self.lo >> len) ^ other.lo) & mask;
        let moved_hi = ((self.hi >> len) ^ other.hi) & mask;
        let first = M256 { lo: self.lo ^ (moved_lo << len), hi: self.hi ^ (moved_hi << len) };
        let second = M256 { lo: other.lo ^ moved_lo, hi: other.hi ^ moved_hi };
        proof {
            let h = log_block_len as nat;
            assert forall|p: nat| p < 256 implies #[trigger] first.bit(p) == interleaved_bit(
                self,
                other,
                h,
                false,
                p,
            ) by {
                if p < 128 {
                    lemma_interleave_lanes_bits(self.lo, other.lo, h, p);
                } else {
                    lemma_interleave_lanes_bits(self.hi, other.hi, h, (p - 128) as nat);
                }
            }
            assert forall|p: nat| p < 256 implies #[trigger] second.bit(p) == interleaved_bit(
                self,
                other,
                h,
                true,
                p,
            ) by {
                if p < 128 {
                    lemma_interleave_lanes_bits(self.lo, other.lo, h, p);
                } else {
                    lemma_interleave_lanes_bits(self.hi, other.hi, h, (p - 128) as nat);
                }
            }
        }
        (first, second)
    }
}

} // verus!
