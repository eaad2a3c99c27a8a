//! A 256-bit word, held as two 128-bit lanes, with the bitwise operations of packed
//! binary field arithmetic.

use vstd::prelude::*;
use vstd::std_specs::convert::FromSpecImpl;
use vstd::std_specs::ops::{
    BitAndSpecImpl,
    BitOrSpecImpl,
    BitXorSpecImpl,
    NotSpecImpl,
    ShlSpecImpl,
    ShrSpecImpl,
};

verus! {

/// 256-bit value that is used for 256-bit SIMD operations.
///
/// Bit `i` of the value is bit `i` of `lo` for `i < 128`, and bit `i - 128` of `hi` above.
#[derive(Copy, Clone, Debug, PartialEq, Eq, Structural, PartialOrd, Ord, Hash)]
pub struct M256 {
    /// The low 128 bits.
    pub lo: u128,
    /// The high 128 bits.
    pub hi: u128,
}

/// Two 128-bit lanes, low lane first, in the layout of a 256-bit word.
pub struct AlignedData(pub [u128; 2]);

impl M256 {
    /// The value with all bits clear.
    #[verifier::when_used_as_spec(spec_zero)]
    pub fn zero() -> (r: M256)
        ensures
            r == M256::spec_zero(),
    {
        M256 { lo: 0, hi: 0 }
    }

    /// The value with all bits clear.
    pub open spec fn spec_zero() -> M256 {
        M256 { lo: 0, hi: 0 }
    }

    /// The value one.
    #[verifier::when_used_as_spec(spec_one)]
    pub fn one() -> (r: M256)
        ensures
            r == M256::spec_one(),
    {
        M256 { lo: 1, hi: 0 }
    }

    /// The value one.
    pub open spec fn spec_one() -> M256 {
        M256 { lo: 1, hi: 0 }
    }

    /// The value with all bits set.
    #[verifier::when_used_as_spec(spec_ones)]
    pub fn ones() -> (r: M256)
        ensures
            r == M256::spec_ones(),
    {
        M256 { lo: u128::MAX, hi: u128::MAX }
    }

    /// The value with all bits set.
    pub open spec fn spec_ones() -> M256 {
        M256 { lo: u128::MAX, hi: u128::MAX }
    }

    /// The value whose two lanes both hold `val`.
    pub fn from_equal_u128s(val: u128) -> (r: M256)
        ensures
            r == (M256 { lo: val, hi: val }),
    {
        M256 { lo: val, hi: val }
    }

    /// The value all of whose bytes are `byte`.
    pub open spec fn spec_splat_byte(byte: u8) -> M256 {
        M256 {
            lo: (byte * 0x0101_0101_0101_0101_0101_0101_0101_0101) as u128,
            hi: (byte * 0x0101_0101_0101_0101_0101_0101_0101_0101) as u128,
        }
    }

    /// The value all of whose bits are the bit `val`: all clear for 0, all set for 1.
    ///
    /// For any other `val`, every byte of the value is `256 - val`.
    pub fn fill_with_bit(val: u8) -> (r: M256)
        ensures
            val == 0 ==> r == M256::zero(),
            val == 1 ==> r == M256::ones(),
            r == M256::spec_splat_byte((if val == 0 { 0 } else { 256 - val }) as u8),
    {
        let byte: u8 = if val == 0 {
            0
        } else {
            (255 - val) + 1
        };
        let lane: u128 = (byte as u128) * 0x0101_0101_0101_0101_0101_0101_0101_0101;
        M256 { lo: lane, hi: lane }
    }

    /// Shifts each 128-bit lane right by `rhs` bits.
    pub fn shr_128b_lanes(self, rhs: usize) -> (r: M256)
        requires
            rhs < 128,
        ensures
            r == (M256 { lo: self.lo >> (rhs as u128), hi: self.hi >> (rhs as u128) }),
    {
        M256 { lo: self.lo >> (rhs as u128), hi: self.hi >> (rhs as u128) }
    }

    /// Shifts each 128-bit lane left by `rhs` bits.
    pub fn shl_128b_lanes(self, rhs: usize) -> (r: M256)
        requires
            rhs < 128,
        ensures
            r == (M256 { lo: self.lo << (rhs as u128), hi: self.hi << (rhs as u128) }),
    {
        M256 { lo: self.lo << (rhs as u128), hi: self.hi << (rhs as u128) }
    }

    /// The two lanes, low lane first.
    pub fn to_u128s(self) -> (r: [u128; 2])
        ensures
            r[0] == self.lo,
            r[1] == self.hi,
    {
        [self.lo, self.hi]
    }
}

impl From<[u128; 2]> for M256 {
    fn from(value: [u128; 2]) -> (r: M256) {
        M256 { lo: value[0], hi: value[1] }
    }
}

impl FromSpecImpl<[u128; 2]> for M256 {
    open spec fn obeys_from_spec() -> bool {
        true
    }

    open spec fn from_spec(v: [u128; 2]) -> M256 {
        M256 { lo: v[0], hi: v[1] }
    }
}

impl From<M256> for [u128; 2] {
    fn from(value: M256) -> (r: [u128; 2]) {
        [value.lo, value.hi]
    }
}

impl FromSpecImpl<M256> for [u128; 2] {
    open spec fn obeys_from_spec() -> bool {
        true
    }

    open spec fn from_spec(v: M256) -> [u128; 2] {
        [v.lo, v.hi]
    }
}

impl From<AlignedData> for M256 {
    fn from(value: AlignedData) -> (r: M256) {
        M256 { lo: value.0[0], hi: value.0[1] }
    }
}

impl FromSpecImpl<AlignedData> for M256 {
    open spec fn obeys_from_spec() -> bool {
        true
    }

    open spec fn from_spec(v: AlignedData) -> M256 {
        M256 { lo: v.0[0], hi: v.0[1] }
    }
}

impl From<u128> for M256 {
    fn from(value: u128) -> (r: M256) {
        M256 { lo: value, hi: 0 }
    }
}

impl FromSpecImpl<u128> for M256 {
    open spec fn obeys_from_spec() -> bool {
        true
    }

    open spec fn from_spec(v: u128) -> M256 {
        M256 { lo: v, hi: 0 }
    }
}

impl From<u64> for M256 {
    fn from(value: u64) -> (r: M256) {
        M256 { lo: value as u128, hi: 0 }
    }
}

impl FromSpecImpl<u64> for M256 {
    open spec fn obeys_from_spec() -> bool {
        true
    }

    open spec fn from_spec(v: u64) -> M256 {
        M256 { lo: v as u128, hi: 0 }
    }
}

impl From<u32> for M256 {
    fn from(value: u32) -> (r: M256) {
        M256 { lo: value as u128, hi: 0 }
    }
}

impl FromSpecImpl<u32> for M256 {
    open spec fn obeys_from_spec() -> bool {
        true
    }

    open spec fn from_spec(v: u32) -> M256 {
        M256 { lo: v as u128, hi: 0 }
    }
}

impl From<u16> for M256 {
    fn from(value: u16) -> (r: M256) {
        M256 { lo: value as u128, hi: 0 }
    }
}

impl FromSpecImpl<u16> for M256 {
    open spec fn obeys_from_spec() -> bool {
        true
    }

    open spec fn from_spec(v: u16) -> M256 {
        M256 { lo: v as u128, hi: 0 }
    }
}

impl From<u8> for M256 {
    fn from(value: u8) -> (r: M256) {
        M256 { lo: value as u128, hi: 0 }
    }
}

impl FromSpecImpl<u8> for M256 {
    open spec fn obeys_from_spec() -> bool {
        true
    }

    open spec fn from_spec(v: u8) -> M256 {
        M256 { lo: v as u128, hi: 0 }
    }
}

impl Default for M256 {
    fn default() -> (r: M256)
        ensures
            r == M256::zero(),
    {
        M256 { lo: 0, hi: 0 }
    }
}

impl core::ops::BitAnd for M256 {
    type Output = M256;

    fn bitand(self, rhs: M256) -> (r: M256) {
        M256 { lo: self.lo & rhs.lo, hi: self.hi & rhs.hi }
    }
}

impl BitAndSpecImpl for M256 {
    open spec fn obeys_bitand_spec() -> bool {
        true
    }

    open spec fn bitand_req(self, rhs: M256) -> bool {
        true
    }

    open spec fn bitand_spec(self, rhs: M256) -> M256 {
        M256 { lo: self.lo & rhs.lo, hi: self.hi & rhs.hi }
    }
}

impl core::ops::BitOr for M256 {
    type Output = M256;

    fn bitor(self, rhs: M256) -> (r: M256) {
        M256 { lo: self.lo | rhs.lo, hi: self.hi | rhs.hi }
    }
}

impl BitOrSpecImpl for M256 {
    open spec fn obeys_bitor_spec() -> bool {
        true
    }

    open spec fn bitor_req(self, rhs: M256) -> bool {
        true
    }

    open spec fn bitor_spec(self, rhs: M256) -> M256 {
        M256 { lo: self.lo | rhs.lo, hi: self.hi | rhs.hi }
    }
}

impl core::ops::BitXor for M256 {
    type Output = M256;

    fn bitxor(self, rhs: M256) -> (r: M256) {
        M256 { lo: self.lo ^ rhs.lo, hi: self.hi ^ rhs.hi }
    }
}

impl BitXorSpecImpl for M256 {
    open spec fn obeys_bitxor_spec() -> bool {
        true
    }

    open spec fn bitxor_req(self, rhs: M256) -> bool {
        true
    }

    open spec fn bitxor_spec(self, rhs: M256) -> M256 {
        M256 { lo: self.lo ^ rhs.lo, hi: self.hi ^ rhs.hi }
    }
}

impl core::ops::Not for M256 {
    type Output = M256;

    fn not(self) -> (r: M256) {
        self ^ M256::ones()
    }
}

impl NotSpecImpl for M256 {
    open spec fn obeys_not_spec() -> bool {
        true
    }

    open spec fn not_req(self) -> bool {
        true
    }

    open spec fn not_spec(self) -> M256 {
        M256 { lo: self.lo ^ u128::MAX, hi: self.hi ^ u128::MAX }
    }
}

impl core::ops::BitAndAssign for M256 {
    fn bitand_assign(&mut self, rhs: M256)
        ensures
            *final(self) == (M256 { lo: old(self).lo & rhs.lo, hi: old(self).hi & rhs.hi }),
    {
        *self = *self & rhs
    }
}

impl core::ops::BitOrAssign for M256 {
    fn bitor_assign(&mut self, rhs: M256)
        ensures
            *final(self) == (M256 { lo: old(self).lo | rhs.lo, hi: old(self).hi | rhs.hi }),
    {
        *self = *self | rhs
    }
}

impl core::ops::BitXorAssign for M256 {
    fn bitxor_assign(&mut self, rhs: M256)
        ensures
            *final(self) == (M256 { lo: old(self).lo ^ rhs.lo, hi: old(self).hi ^ rhs.hi }),
    {
        *self = *self ^ rhs;
    }
}

/// What shifting a value right by `rhs` bits gives.
pub open spec fn shift_right(x: M256, rhs: nat) -> M256 {
    if rhs >= 256 {
        M256 { lo: 0, hi: 0 }
    } else if rhs == 0 {
        x
    } else if rhs >= 128 {
        M256 { lo: x.hi >> ((rhs - 128) as u128), hi: 0 }
    } else {
        M256 { lo: (x.lo >> (rhs as u128)) | (x.hi << ((128 - rhs) as u128)), hi: x.hi >> (rhs as u128) }
    }
}

/// What shifting a value left by `rhs` bits gives.
pub open spec fn shift_left(x: M256, rhs: nat) -> M256 {
    if rhs >= 256 {
        M256 { lo: 0, hi: 0 }
    } else if rhs == 0 {
        x
    } else if rhs >= 128 {
        M256 { lo: 0, hi: x.lo << ((rhs - 128) as u128) }
    } else {
        M256 { lo: x.lo << (rhs as u128), hi: (x.hi << (rhs as u128)) | (x.lo >> ((128 - rhs) as u128)) }
    }
}

impl core::ops::Shr<usize> for M256 {
    type Output = M256;

    fn shr(self, rhs: usize) -> (r: M256) {
        if rhs >= 256 {
            M256::zero()
        } else if rhs == 0 {
            self
        } else if rhs >= 128 {
            M256 { lo: self.hi >> ((rhs - 128) as u128), hi: 0 }
        } else {
            M256 {
                lo: (self.lo >> (rhs as u128)) | (self.hi << ((128 - rhs) as u128)),
                hi: self.hi >> (rhs as u128),
            }
        }
    }
}

impl ShrSpecImpl<usize> for M256 {
    open spec fn obeys_shr_spec() -> bool {
        true
    }

    open spec fn shr_req(self, rhs: usize) -> bool {
        true
    }

    open spec fn shr_spec(self, rhs: usize) -> M256 {
        shift_right(self, rhs as nat)
    }
}

impl core::ops::Shl<usize> for M256 {
    type Output = M256;

    fn shl(self, rhs: usize) -> (r: M256) {
        if rhs >= 256 {
            M256::zero()
        } else if rhs == 0 {
            self
        } else if rhs >= 128 {
            M256 { lo: 0, hi: self.lo << ((rhs - 128) as u128) }
        } else {
            M256 {
                lo: self.lo << (rhs as u128),
                hi: (self.hi << (rhs as u128)) | (self.lo >> ((128 - rhs) as u128)),
            }
        }
    }
}

impl ShlSpecImpl<usize> for M256 {
    open spec fn obeys_shl_spec() -> bool {
        true
    }

    open spec fn shl_req(self, rhs: usize) -> bool {
        true
    }

    open spec fn shl_spec(self, rhs: usize) -> M256 {
        shift_left(self, rhs as nat)
    }
}

} // verus!
