//! Natural numbers of unbounded size, held as 64-bit limbs with the least significant first.
//!
//! Only the operations that an exact comparison of two products of powers needs are
//! provided: a power of two, subtraction and multiplication by one word, and `<=`.

use vstd::arithmetic::power2::{lemma2_to64, lemma2_to64_rest, lemma_pow2_adds, lemma_pow2_pos, pow2};
use vstd::prelude::*;

use crate::log2::pow2_u64;

verus! {

/// The weight of limb `i`: `2^(64 i)`.
pub open spec fn limb_weight(i: nat) -> nat {
    pow2(64 * i)
}

/// The number that a sequence of limbs stands for.
pub open spec fn limbs_value(s: Seq<u64>) -> nat
    decreases s.len(),
{
    if s.len() == 0 {
        0
    } else {
        limbs_value(s.drop_last()) + s.last() as nat * limb_weight((s.len() - 1) as nat)
    }
}

proof fn lemma_limb_weight_step(i: nat)
    ensures
        limb_weight(i + 1) == 0x1_0000_0000_0000_0000 * limb_weight(i),
        limb_weight(i) > 0,
{
    lemma_pow2_adds(64, 64 * i);
    lemma_pow2_pos(64 * i);
    lemma2_to64();
    lemma2_to64_rest();
    assert(64 * (i + 1) == 64 + 64 * i);
}

proof fn lemma_value_push(s: Seq<u64>, x: u64)
    ensures
        limbs_value(s.push(x)) == limbs_value(s) + x as nat * limb_weight(s.len()),
{
    assert(s.push(x).drop_last() =~= s);
}

proof fn lemma_value_take_step(s: Seq<u64>, i: int)
    requires
        0 <= i < s.len(),
    ensures
        limbs_value(s.take(i + 1)) == limbs_value(s.take(i)) + s[i] as nat * limb_weight(i as nat),
{
    assert(s.take(i + 1).drop_last() =~= s.take(i));
}

proof fn lemma_value_bound(s: Seq<u64>)
    ensures
        limbs_value(s) < limb_weight(s.len()),
    decreases s.len(),
{
    if s.len() == 0 {
        lemma2_to64();
    } else {
        let n = (s.len() - 1) as nat;
        lemma_value_bound(s.drop_last());
        lemma_limb_weight_step(n);
        let w = limb_weight(n) as int;
        let x = s.last() as int;
        assert(x * w + w <= 0x1_0000_0000_0000_0000 * w) by (nonlinear_arith)
            requires
                0 <= x < 0x1_0000_0000_0000_0000,
                w > 0,
        ;
    }
}

/// A natural number of any size.
pub struct BigNat {
    limbs: Vec<u64>,
}

impl View for BigNat {
    type V = nat;

    closed spec fn view(&self) -> nat {
        limbs_value(self.limbs@)
    }
}

impl BigNat {
    /// The number `2^e`.
    pub fn pow2(e: usize) -> (r: BigNat)
        ensures
            r@ == pow2(e as nat),
    {
        let zeros = e / 64;
        let mut limbs: Vec<u64> = Vec::new();
        let mut i: usize = 0;
        while i < zeros
            invariant
                i <= zeros,
                limbs.len() == i,
                limbs_value(limbs@) == 0,
            decreases zeros - i,
        {
            proof {
                lemma_value_push(limbs@, 0);
            }
            limbs.push(0);
            i = i + 1;
        }
        let top = pow2_u64(e % 64);
        proof {
            lemma_value_push(limbs@, top);
            lemma_pow2_adds((e % 64) as nat, 64 * (zeros as nat));
            assert(e % 64 + 64 * zeros == e);
        }
        limbs.push(top);
        BigNat { limbs }
    }

    /// Multiplies the number by `m`.
    pub fn mul_small(&mut self, m: u64)
        ensures
            final(self)@ == old(self)@ * m,
    {
        let n = self.limbs.len();
        let mut out: Vec<u64> = Vec::new();
        let mut carry: u64 = 0;
        let mut i: usize = 0;
        proof {
            lemma2_to64();
            assert(self.limbs@.take(0) =~= Seq::<u64>::empty());
            assert(limb_weight(0) == 1);
            assert(limbs_value(self.limbs@.take(0)) == 0);
            assert(carry as nat * limb_weight(0) == 0);
        }
        while i < n
            invariant
                i <= n,
                n == self.limbs.len(),
                out.len() == i,
                limbs_value(out@) + carry as nat * limb_weight(i as nat) == limbs_value(
                    self.limbs@.take(i as int),
                ) * m,
            decreases n - i,
        {
            let x = self.limbs[i];
            assert(x as int * m as int + carry as int <= 0xffff_ffff_ffff_ffff
                * 0x1_0000_0000_0000_0000) by (nonlinear_arith)
                requires
                    0 <= x <= 0xffff_ffff_ffff_ffff,
                    0 <= m <= 0xffff_ffff_ffff_ffff,
                    0 <= carry <= 0xffff_ffff_ffff_ffff,
            ;
            let t: u128 = x as u128 * m as u128 + carry as u128;
            let lo: u64 = (t % 0x1_0000_0000_0000_0000) as u64;
            let hi: u64 = (t / 0x1_0000_0000_0000_0000) as u64;
            proof {
                let w = limb_weight(i as nat) as int;
                let prev = limbs_value(self.limbs@.take(i as int)) as int;
                lemma_value_push(out@, lo);
                lemma_value_take_step(self.limbs@, i as int);
                lemma_limb_weight_step(i as nat);
                assert(t == hi * 0x1_0000_0000_0000_0000 + lo);
                assert((limbs_value(out@) + lo * w) + hi * (0x1_0000_0000_0000_0000 * w) == (prev
                    + x * w) * m) by (nonlinear_arith)
                    requires
                        limbs_value(out@) + carry * w == prev * m,
                        x * m + carry == hi * 0x1_0000_0000_0000_0000 + lo,
                ;
            }
            out.push(lo);
            carry = hi;
            i = i + 1;
        }
        proof {
            assert(self.limbs@.take(n as int) =~= self.limbs@);
        }
        if carry != 0 {
            proof {
                lemma_value_push(out@, carry);
            }
            out.push(carry);
        }
        self.limbs = out;
    }

    /// Subtracts `c` from the number.
    pub fn sub_small(&mut self, c: u64)
        requires
            old(self)@ >= c,
        ensures
            final(self)@ == old(self)@ - c,
    {
        let n = self.limbs.len();
        let mut out: Vec<u64> = Vec::new();
        let mut debt: u64 = c;
        let mut i: usize = 0;
        proof {
            lemma2_to64();
            assert(self.limbs@.take(0) =~= Seq::<u64>::empty());
            assert(limb_weight(0) == 1);
        }
        while i < n
            invariant
                i <= n,
                n == self.limbs.len(),
                out.len() == i,
                limbs_value(out@) + c == limbs_value(
                    self.limbs@.take(i as int),
                ) + debt as nat * limb_weight(i as nat),
            decreases n - i,
        {
            let x = self.limbs[i];
            let lo: u64;
            let next: u64;
            if x >= debt {
                lo = x - debt;
                next = 0;
            } else {
                lo = (0xffff_ffff_ffff_ffff - debt) + x + 1;
                next = 1;
            }
            proof {
                let w = limb_weight(i as nat) as int;
                let prev = limbs_value(self.limbs@.take(i as int)) as int;
                lemma_value_push(out@, lo);
                lemma_value_take_step(self.limbs@, i as int);
                lemma_limb_weight_step(i as nat);
                assert(lo + debt == x + next * 0x1_0000_0000_0000_0000);
                assert((limbs_value(out@) + lo * w) + c == (prev + x * w) + next * (
                0x1_0000_0000_0000_0000 * w)) by (nonlinear_arith)
                    requires
                        limbs_value(out@) + c == prev + debt * w,
                        lo + debt == x + next * 0x1_0000_0000_0000_0000,
                ;
            }
            out.push(lo);
            debt = next;
            i = i + 1;
        }
        proof {
            assert(self.limbs@.take(n as int) =~= self.limbs@);
            lemma_value_bound(out@);
            lemma_value_bound(self.limbs@);
            let w = limb_weight(n as nat) as int;
            if debt > 0 {
                assert(debt * w >= w) by (nonlinear_arith)
                    requires
                        debt >= 1,
                        w >= 0,
                ;
            }
        }
        self.limbs = out;
    }

    /// Whether this number is at most `other`.
    pub fn le(&self, other: &BigNat) -> (r: bool)
        ensures
            r == (self@ <= other@),
    {
        let na = self.limbs.len();
        let nb = other.limbs.len();
        let n = if na >= nb { na } else { nb };
        let mut below = false;
        let mut same = true;
        let mut i: usize = 0;
        proof {
            assert(self.limbs@.take(0) =~= Seq::<u64>::empty());
            assert(other.limbs@.take(0) =~= Seq::<u64>::empty());
        }
        while i < n
            invariant
                i <= n,
                na == self.limbs.len(),
                nb == other.limbs.len(),
                n >= na,
                n >= nb,
                same == (prefix_value(self.limbs@, i as nat) == prefix_value(other.limbs@, i as nat)),
                below == (prefix_value(self.limbs@, i as nat) < prefix_value(other.limbs@, i as nat)),
            decreases n - i,
        {
            let x: u64 = if i < na { self.limbs[i] } else { 0 };
            let y: u64 = if i < nb { other.limbs[i] } else { 0 };
            proof {
                lemma_prefix_step(self.limbs@, i as nat);
                lemma_prefix_step(other.limbs@, i as nat);
                let w = limb_weight(i as nat) as int;
                let pa = prefix_value(self.limbs@, i as nat) as int;
                let pb = prefix_value(other.limbs@, i as nat) as int;
                if x < y {
                    assert(pa + x * w < pb + y * w) by (nonlinear_arith)
                        requires
                            x < y,
                            0 <= pa < w,
                            0 <= pb,
                    ;
                } else if y < x {
                    assert(pb + y * w < pa + x * w) by (nonlinear_arith)
                        requires
                            y < x,
                            0 <= pb < w,
                            0 <= pa,
                    ;
                }
            }
            if x < y {
                below = true;
                same = false;
            } else if y < x {
                below = false;
                same = false;
            }
            i = i + 1;
        }
        proof {
            assert(self.limbs@.take(na as int) =~= self.limbs@);
            assert(other.limbs@.take(nb as int) =~= other.limbs@);
        }
        below || same
    }
}

/// The value of the lowest `i` limbs, where limbs past the end count as zero.
spec fn prefix_value(s: Seq<u64>, i: nat) -> nat {
    if i <= s.len() {
        limbs_value(s.take(i as int))
    } else {
        limbs_value(s)
    }
}

proof fn lemma_prefix_step(s: Seq<u64>, i: nat)
    ensures
        prefix_value(s, i) < limb_weight(i),
        prefix_value(s, i + 1) == prefix_value(s, i) + (if i < s.len() {
            s[i as int] as nat
        } else {
            0
        }) * limb_weight(i),
    decreases i,
{
    if i < s.len() {
        lemma_value_take_step(s, i as int);
        lemma_value_bound(s.take(i as int));
    } else {
        assert(s.take(s.len() as int) =~= s);
        lemma_value_bound(s);
        lemma_weight_monotone(s.len(), i);
    }
}

proof fn lemma_weight_monotone(i: nat, j: nat)
    requires
        i <= j,
    ensures
        limb_weight(i) <= limb_weight(j),
{
    if i < j {
        vstd::arithmetic::power2::lemma_pow2_strictly_increases(64 * i, 64 * j);
    }
}

} // verus!
