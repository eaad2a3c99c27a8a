//! Operations that build a 256-bit word block by block from the blocks of others.

use vstd::arithmetic::div_mod::{lemma_fundamental_div_mod, lemma_fundamental_div_mod_converse, lemma_mod_bound};
use vstd::arithmetic::power2::{lemma2_to64, lemma_pow2_adds, lemma_pow2_pos, lemma_pow2_strictly_increases, pow2};
use vstd::prelude::*;

use crate::log2::pow2_u64;
use crate::m256::M256;
use crate::m256_bits::{lane_bit, lemma_zero_lane_bits};
use crate::m256_blocks::lemma_block_len;

verus! {

/// The number of blocks of `2^log_bits` bits in a value.
pub open spec fn n_blocks(log_bits: nat) -> nat {
    pow2((8 - log_bits) as nat)
}

/// The blocks of a value fill its 256 bits.
pub proof fn lemma_n_blocks(log_bits: nat)
    requires
        log_bits <= 8,
    ensures
        n_blocks(log_bits) * pow2(log_bits) == 256,
        1 <= n_blocks(log_bits) <= 256,
        1 <= pow2(log_bits) <= 256,
{
    lemma2_to64();
    lemma_pow2_adds((8 - log_bits) as nat, log_bits);
    lemma_pow2_pos(log_bits);
    lemma_pow2_pos((8 - log_bits) as nat);
    let n = n_blocks(log_bits) as int;
    let len = pow2(log_bits) as int;
    assert(n <= 256 && len <= 256) by (nonlinear_arith)
        requires
            n * len == 256,
            n >= 1,
            len >= 1,
    ;
}

/// A position within block `k` has `k` for its quotient by the block length.
pub proof fn lemma_position_in_block(p: nat, k: nat, len: nat)
    requires
        len > 0,
        k * len <= p < (k + 1) * len,
    ensures
        p / len == k,
        p % len == p - k * len,
{
    assert((k + 1) * len == k * len + len) by (nonlinear_arith);
    lemma_fundamental_div_mod_converse(p as int, len as int, k as int, p - k * len);
}

/// Every position lies in the block of its quotient by the block length.
pub proof fn lemma_block_of_position(p: nat, log_bits: nat)
    requires
        log_bits <= 8,
        p < 256,
    ensures
        p / pow2(log_bits) < n_blocks(log_bits),
        p % pow2(log_bits) < pow2(log_bits),
        p == (p / pow2(log_bits)) * pow2(log_bits) + p % pow2(log_bits),
{
    lemma_n_blocks(log_bits);
    let len = pow2(log_bits) as int;
    let n = n_blocks(log_bits) as int;
    lemma_fundamental_div_mod(p as int, len);
    lemma_mod_bound(p as int, len);
    let q = p as int / len;
    assert(q < n) by (nonlinear_arith)
        requires
            p == len * q + p as int % len,
            0 <= p as int % len,
            p < n * len,
            len > 0,
    ;
    assert(len * q == q * len) by (nonlinear_arith);
}

/// The number of blocks of `2^log_bits` bits in a value, and the length of one.
fn block_count_and_len(log_bits: usize) -> (r: (usize, usize))
    requires
        log_bits <= 7,
    ensures
        r.0 == n_blocks(log_bits as nat),
        r.1 == pow2(log_bits as nat),
        r.0 * r.1 == 256,
        2 <= r.0 <= 256,
        1 <= r.1 <= 128,
{
    proof {
        lemma_n_blocks(log_bits as nat);
        lemma_block_len(log_bits as nat);
        lemma2_to64();
        if log_bits < 7 {
            lemma_pow2_strictly_increases(1, (8 - log_bits) as nat);
        }
    }
    (pow2_u64(8 - log_bits) as usize, pow2_u64(log_bits) as usize)
}

impl M256 {
    /// The value whose block `k` of `2^log_bits` bits holds the low bits of `blocks[k]`.
    pub fn from_blocks(log_bits: usize, blocks: &Vec<u128>) -> (r: M256)
        requires
            log_bits <= 7,
            blocks.len() == n_blocks(log_bits as nat),
        ensures
            forall|p: nat|
                p < 256 ==> #[trigger] r.bit(p) == lane_bit(
                    blocks[p as int / pow2(log_bits as nat) as int],
                    p % pow2(log_bits as nat),
                ),
    {
        let (n, len) = block_count_and_len(log_bits);
        let mut r = M256::zero();
        let mut k: usize = 0;
        proof {
            assert forall|p: nat| p < 256 implies !#[trigger] r.bit(p) by {
                lemma_zero_lane_bits(p);
                lemma_zero_lane_bits((p - 128) as nat);
            }
        }
        while k < n
            invariant
                k <= n,
                log_bits <= 7,
                n == n_blocks(log_bits as nat),
                len == pow2(log_bits as nat),
                n * len == 256,
                len >= 1,
                blocks.len() == n,
                forall|p: nat|
                    p < 256 ==> #[trigger] r.bit(p) == (p < k * len && lane_bit(
                        blocks[p as int / len as int],
                        p % (len as nat),
                    )),
            decreases n - k,
        {
            assert((k + 1) * len <= 256 && (k + 1) * len == k * len + len) by (nonlinear_arith)
                requires
                    k < n,
                    n * len == 256,
            ;
            let ghost before = r;
            r.set_subvalue(log_bits, k, blocks[k]);
            proof {
                assert forall|p: nat| p < 256 implies #[trigger] r.bit(p) == (p < (k + 1) * len
                    && lane_bit(blocks[p as int / len as int], p % (len as nat))) by {
                    assert(before.bit(p) == (p < k * len && lane_bit(
                        blocks[p as int / len as int],
                        p % (len as nat),
                    )));
                    if k * len <= p < (k + 1) * len {
                        lemma_position_in_block(p, k as nat, len as nat);
                    }
                }
            }
            k = k + 1;
        }
        r
    }
}

/// Whether `v` holds block `i` of `2^log_bits` bits of `x` in its low bits, and nothing else.
pub open spec fn holds_block(v: u128, x: M256, log_bits: nat, i: nat) -> bool {
    forall|j: nat|
        j < 128 ==> #[trigger] lane_bit(v, j) == (j < pow2(log_bits) && x.bit(
            (i * pow2(log_bits) + j) as nat,
        ))
}

/// The element of a value that lands at element `k` when block `block_idx` of
/// `2^log_block_len` elements is spread over a whole value: each element of the block is
/// repeated as often as it takes to fill the value.
pub open spec fn spread_source(log_bits: nat, log_block_len: nat, block_idx: nat, k: nat) -> nat {
    block_idx * pow2(log_block_len) + k / pow2((8 - log_bits - log_block_len) as nat)
}

/// The element that is spread to element `k` lies within the value.
pub proof fn lemma_spread_source_in_range(log_bits: nat, log_block_len: nat, block_idx: nat, k: nat)
    requires
        log_bits + log_block_len <= 8,
        block_idx < pow2((8 - log_bits - log_block_len) as nat),
        k < n_blocks(log_bits),
    ensures
        spread_source(log_bits, log_block_len, block_idx, k) < n_blocks(log_bits),
{
    let repeat = pow2((8 - log_bits - log_block_len) as nat) as int;
    let elems = pow2(log_block_len) as int;
    lemma_pow2_adds((8 - log_bits - log_block_len) as nat, log_block_len);
    lemma_pow2_pos(log_block_len);
    lemma_fundamental_div_mod(k as int, repeat);
    lemma_mod_bound(k as int, repeat);
    let q = k as int / repeat;
    assert(q < elems) by (nonlinear_arith)
        requires
            k == repeat * q + k as int % repeat,
            0 <= k as int % repeat,
            k < repeat * elems,
            repeat > 0,
    ;
    assert(block_idx * elems + q < repeat * elems) by (nonlinear_arith)
        requires
            0 <= q < elems,
            0 <= block_idx < repeat,
    ;
}

/// The value whose block `k` of `2^log_bits` bits is block `picks[k].1` of `second` where
/// `picks[k].0` holds, and of `first` where it does not.
fn gather(first: M256, second: M256, log_bits: usize, picks: &Vec<(bool, usize)>) -> (r: M256)
    requires
        log_bits <= 7,
        picks.len() == n_blocks(log_bits as nat),
        forall|k: int| 0 <= k < picks.len() ==> (#[trigger] picks[k]).1 < n_blocks(log_bits as nat),
    ensures
        forall|p: nat|
            p < 256 ==> #[trigger] r.bit(p) == (if picks[p as int / pow2(log_bits as nat) as int].0 {
                second
            } else {
                first
            }).bit(
                (picks[p as int / pow2(log_bits as nat) as int].1 * pow2(log_bits as nat) + p % pow2(
                    log_bits as nat,
                )) as nat,
            ),
{
    let (n, len) = block_count_and_len(log_bits);
    let mut blocks: Vec<u128> = Vec::new();
    let mut k: usize = 0;
    while k < n
        invariant
            k <= n,
            log_bits <= 7,
            n == n_blocks(log_bits as nat),
            len == pow2(log_bits as nat),
            n * len == 256,
            picks.len() == n,
            forall|i: int| 0 <= i < picks.len() ==> (#[trigger] picks[i]).1 < n,
            blocks.len() == k,
            forall|i: int|
                0 <= i < k ==> holds_block(
                    #[trigger] blocks[i],
                    if picks[i].0 {
                        second
                    } else {
                        first
                    },
                    log_bits as nat,
                    picks[i].1 as nat,
                ),
        decreases n - k,
    {
        let pick = picks[k];
        assert((pick.1 + 1) * len <= 256) by (nonlinear_arith)
            requires
                pick.1 < n,
                n * len == 256,
                len >= 0,
        ;
        let block = if pick.0 {
            second.get_subvalue(log_bits, pick.1)
        } else {
            first.get_subvalue(log_bits, pick.1)
        };
        blocks.push(block);
        k = k + 1;
    }
    let r = M256::from_blocks(log_bits, &blocks);
    proof {
        assert forall|p: nat| p < 256 implies #[trigger] r.bit(p) == (if picks[p as int / len as int].0 {
            second
        } else {
            first
        }).bit((picks[p as int / len as int].1 * len + p % (len as nat)) as nat) by {
            lemma_block_of_position(p, log_bits as nat);
            let i = p as int / len as int;
            assert(holds_block(
                blocks[i],
                if picks[i].0 {
                    second
                } else {
                    first
                },
                log_bits as nat,
                picks[i].1 as nat,
            ));
            assert(lane_bit(blocks[i], p % (len as nat)) == r.bit(p));
        }
    }
    r
}

/// The block that lands at block `k` when the low halves, or the high halves, of the
/// 128-bit lanes of two values are interleaved block by block.
pub open spec fn unpack_source(log_block_len: nat, k: nat, high: bool) -> nat {
    let per_lane = pow2((7 - log_block_len) as nat);
    (k / per_lane) * per_lane + (if high {
        per_lane / 2
    } else {
        0
    }) + (k % per_lane) / 2
}

/// The block that lands at block `k` of the first, or of the second, of two transposed
/// values; it is taken from the first value for `k` in the lower half of the blocks and
/// from the second for `k` in the upper half.
pub open spec fn transpose_source(log_block_len: nat, k: nat, second: bool) -> nat {
    2 * (k % pow2((7 - log_block_len) as nat)) + (if second {
        1nat
    } else {
        0nat
    })
}

impl M256 {
    /// The value whose block `i` of `2^log_bits` bits holds the low bits of what `f`
    /// returns for `i`. The function is called once for each block, from block 0 up.
    pub fn from_fn<F: Fn(usize) -> u128>(log_bits: usize, f: F) -> (r: M256)
        requires
            log_bits <= 7,
            forall|i: usize| i < n_blocks(log_bits as nat) ==> call_requires(f, (i,)),
        ensures
            exists|blocks: Seq<u128>|
                {
                    &&& blocks.len() == n_blocks(log_bits as nat)
                    &&& forall|i: usize|
                        i < blocks.len() ==> call_ensures(f, (i,), #[trigger] blocks[i as int])
                    &&& forall|p: nat|
                        p < 256 ==> #[trigger] r.bit(p) == lane_bit(
                            blocks[p as int / pow2(log_bits as nat) as int],
                            p % pow2(log_bits as nat),
                        )
                },
    {
        let (n, len) = block_count_and_len(log_bits);
        let mut blocks: Vec<u128> = Vec::new();
        let mut k: usize = 0;
        while k < n
            invariant
                k <= n,
                n == n_blocks(log_bits as nat),
                blocks.len() == k,
                forall|i: usize| i < n_blocks(log_bits as nat) ==> call_requires(f, (i,)),
                forall|i: usize| i < k ==> call_ensures(f, (i,), #[trigger] blocks[i as int]),
            decreases n - k,
        {
            let block = f(k);
            blocks.push(block);
            k = k + 1;
        }
        let r = M256::from_blocks(log_bits, &blocks);
        assert(blocks@.len() == n_blocks(log_bits as nat));
        r
    }

    /// The value all of whose blocks of `2^log_bits` bits hold the low bits of `value`.
    pub fn broadcast(value: u128, log_bits: usize) -> (r: M256)
        requires
            log_bits <= 7,
        ensures
            forall|p: nat|
                p < 256 ==> #[trigger] r.bit(p) == lane_bit(value, p % pow2(log_bits as nat)),
    {
        let (n, len) = block_count_and_len(log_bits);
        let mut blocks: Vec<u128> = Vec::new();
        let mut k: usize = 0;
        while k < n
            invariant
                k <= n,
                blocks.len() == k,
                forall|i: int| 0 <= i < k ==> blocks[i] == value,
            decreases n - k,
        {
            blocks.push(value);
            k = k + 1;
        }
        let r = M256::from_blocks(log_bits, &blocks);
        proof {
            assert forall|p: nat| p < 256 implies #[trigger] r.bit(p) == lane_bit(
                value,
                p % pow2(log_bits as nat),
            ) by {
                lemma_block_of_position(p, log_bits as nat);
            }
        }
        r
    }

    /// Spreads block `block_idx` of `2^log_block_len` elements of `2^log_bits` bits each
    /// over a whole value: with the elements of the block being `e0 e1 ..`, the result is
    /// `e0 .. e0 e1 .. e1 ..`, each element repeated equally often.
    pub fn spread(self, log_bits: usize, log_block_len: usize, block_idx: usize) -> (r: M256)
        requires
            log_bits <= 7,
            log_bits + log_block_len <= 8,
            block_idx < pow2((8 - log_bits - log_block_len) as nat),
        ensures
            forall|p: nat|
                p < 256 ==> #[trigger] r.bit(p) == self.bit(
                    spread_source(
                        log_bits as nat,
                        log_block_len as nat,
                        block_idx as nat,
                        p / pow2(log_bits as nat),
                    ) * pow2(log_bits as nat) + p % pow2(log_bits as nat),
                ),
    {
        let (n, len) = block_count_and_len(log_bits);
        proof {
            lemma2_to64();
            lemma_pow2_pos((8 - log_bits - log_block_len) as nat);
            lemma_pow2_pos(log_block_len as nat);
            if log_block_len < 8 {
                lemma_pow2_strictly_increases(log_block_len as nat, 8);
            }
            if 8 - log_bits - log_block_len < 8 {
                lemma_pow2_strictly_increases((8 - log_bits - log_block_len) as nat, 8);
            }
        }
        let repeat = pow2_u64(8 - log_bits - log_block_len) as usize;
        let elems = pow2_u64(log_block_len) as usize;
        assert(block_idx * elems <= 256 * 256) by (nonlinear_arith)
            requires
                block_idx < 256,
                elems <= 256,
        ;
        let base = block_idx * elems;
        let mut picks: Vec<(bool, usize)> = Vec::new();
        let mut k: usize = 0;
        while k < n
            invariant
                k <= n,
                log_bits + log_block_len <= 8,
                block_idx < pow2((8 - log_bits - log_block_len) as nat),
                n == n_blocks(log_bits as nat),
                repeat == pow2((8 - log_bits - log_block_len) as nat),
                repeat > 0,
                base == block_idx * pow2(log_block_len as nat),
                picks.len() == k,
                forall|i: int|
                    0 <= i < k ==> (#[trigger] picks[i]).1 < n && picks[i].1 == spread_source(
                        log_bits as nat,
                        log_block_len as nat,
                        block_idx as nat,
                        i as nat,
                    ),
            decreases n - k,
        {
            proof {
                lemma_spread_source_in_range(
                    log_bits as nat,
                    log_block_len as nat,
                    block_idx as nat,
                    k as nat,
                );
            }
            picks.push((false, base + k / repeat));
            k = k + 1;
        }
        let r = gather(self, self, log_bits, &picks);
        proof {
            assert forall|p: nat| p < 256 implies #[trigger] r.bit(p) == self.bit(
                spread_source(
                    log_bits as nat,
                    log_block_len as nat,
                    block_idx as nat,
                    p / pow2(log_bits as nat),
                ) * pow2(log_bits as nat) + p % pow2(log_bits as nat),
            ) by {
                lemma_block_of_position(p, log_bits as nat);
                let i = p as int / len as int;
                assert(picks[i].1 == spread_source(
                    log_bits as nat,
                    log_block_len as nat,
                    block_idx as nat,
                    i as nat,
                ));
            }
        }
        r
    }

    /// Interleaves the blocks of `2^log_block_len` bits of the low halves of the 128-bit
    /// lanes of two values: with the lanes of `self` being `a0 a1 ..` and those of `other`
    /// being `b0 b1 ..`, each lane of the result is `a0 b0 a1 b1 ..`.
    pub fn unpack_lo_128b_lanes(self, other: M256, log_block_len: usize) -> (r: M256)
        requires
            log_block_len <= 6,
        ensures
            forall|p: nat|
                p < 256 ==> #[trigger] r.bit(p) == (if (p / pow2(log_block_len as nat)) % 2 == 0 {
                    self
                } else {
                    other
                }).bit(
                    unpack_source(log_block_len as nat, p / pow2(log_block_len as nat), false)
                        * pow2(log_block_len as nat) + p % pow2(log_block_len as nat),
                ),
    {
        self.unpack_128b_lanes(other, log_block_len, false)
    }

    /// Interleaves the blocks of `2^log_block_len` bits of the high halves of the 128-bit
    /// lanes of two values.
    pub fn unpack_hi_128b_lanes(self, other: M256, log_block_len: usize) -> (r: M256)
        requires
            log_block_len <= 6,
        ensures
            forall|p: nat|
                p < 256 ==> #[trigger] r.bit(p) == (if (p / pow2(log_block_len as nat)) % 2 == 0 {
                    self
                } else {
                    other
                }).bit(
                    unpack_source(log_block_len as nat, p / pow2(log_block_len as nat), true)
                        * pow2(log_block_len as nat) + p % pow2(log_block_len as nat),
                ),
    {
        self.unpack_128b_lanes(other, log_block_len, true)
    }

    fn unpack_128b_lanes(self, other: M256, log_block_len: usize, high: bool) -> (r: M256)
        requires
            log_block_len <= 6,
        ensures
            forall|p: nat|
                p < 256 ==> #[trigger] r.bit(p) == (if (p / pow2(log_block_len as nat)) % 2 == 0 {
                    self
                } else {
                    other
                }).bit(
                    unpack_source(log_block_len as nat, p / pow2(log_block_len as nat), high)
                        * pow2(log_block_len as nat) + p % pow2(log_block_len as nat),
                ),
    {
        let (n, len) = block_count_and_len(log_block_len);
        proof {
            lemma2_to64();
            lemma_pow2_adds((7 - log_block_len) as nat, 1);
            lemma_pow2_adds((6 - log_block_len) as nat, 1);
            lemma_pow2_pos((6 - log_block_len) as nat);
            assert((8 - log_block_len) as nat == (7 - log_block_len) as nat + 1);
            assert((7 - log_block_len) as nat == (6 - log_block_len) as nat + 1);
        }
        let per_lane = pow2_u64(7 - log_block_len) as usize;
        let half = pow2_u64(6 - log_block_len) as usize;
        let mut picks: Vec<(bool, usize)> = Vec::new();
        let mut k: usize = 0;
        while k < n
            invariant
                k <= n,
                n == 2 * per_lane,
                per_lane == 2 * half,
                half >= 1,
                n <= 256,
                per_lane == pow2((7 - log_block_len) as nat),
                picks.len() == k,
                forall|i: int|
                    0 <= i < k ==> (#[trigger] picks[i]).1 < n && picks[i].1 == unpack_source(
                        log_block_len as nat,
                        i as nat,
                        high,
                    ) && picks[i].0 == (i % 2 != 0),
            decreases n - k,
        {
            let lane = k / per_lane;
            let within = k % per_lane;
            assert(lane <= 1 && lane * per_lane + per_lane <= n && 0 <= lane * per_lane)
                by (nonlinear_arith)
                requires
                    lane == k / per_lane,
                    k < n,
                    n == 2 * per_lane,
                    per_lane > 0,
            ;
            let source = lane * per_lane + (if high {
                half
            } else {
                0
            }) + within / 2;
            picks.push((k % 2 != 0, source));
            k = k + 1;
        }
        let r = gather(self, other, log_block_len, &picks);
        proof {
            assert forall|p: nat| p < 256 implies #[trigger] r.bit(p) == (if (p / pow2(
                log_block_len as nat,
            )) % 2 == 0 {
                self
            } else {
                other
            }).bit(
                unpack_source(log_block_len as nat, p / pow2(log_block_len as nat), high) * pow2(
                    log_block_len as nat,
                ) + p % pow2(log_block_len as nat),
            ) by {
                lemma_block_of_position(p, log_block_len as nat);
                let i = p as int / len as int;
                assert(picks[i].1 == unpack_source(log_block_len as nat, i as nat, high));
            }
        }
        r
    }

    /// Transposes two values as rows of blocks of `2^log_block_len` bits: with the blocks
    /// of `self` followed by those of `other` being `c0 c1 c2 c3 ..`, the results are
    /// `c0 c2 ..` and `c1 c3 ..`.
    pub fn transpose(self, other: M256, log_block_len: usize) -> (r: (M256, M256))
        requires
            log_block_len <= 7,
        ensures
            forall|p: nat|
                p < 256 ==> #[trigger] r.0.bit(p) == (if p < 128 {
                    self
                } else {
                    other
                }).bit(
                    transpose_source(log_block_len as nat, p / pow2(log_block_len as nat), false)
                        * pow2(log_block_len as nat) + p % pow2(log_block_len as nat),
                ),
            forall|p: nat|
                p < 256 ==> #[trigger] r.1.bit(p) == (if p < 128 {
                    self
                } else {
                    other
                }).bit(
                    transpose_source(log_block_len as nat, p / pow2(log_block_len as nat), true)
                        * pow2(log_block_len as nat) + p % pow2(log_block_len as nat),
                ),
    {
        (self.transpose_half(other, log_block_len, false), self.transpose_half(other, log_block_len, true))
    }

    fn transpose_half(self, other: M256, log_block_len: usize, second: bool) -> (r: M256)
        requires
            log_block_len <= 7,
        ensures
            forall|p: nat|
                p < 256 ==> #[trigger] r.bit(p) == (if p < 128 {
                    self
                } else {
                    other
                }).bit(
                    transpose_source(log_block_len as nat, p / pow2(log_block_len as nat), second)
                        * pow2(log_block_len as nat) + p % pow2(log_block_len as nat),
                ),
    {
        let (n, len) = block_count_and_len(log_block_len);
        proof {
            lemma2_to64();
            lemma_pow2_adds((7 - log_block_len) as nat, 1);
            lemma_pow2_adds((7 - log_block_len) as nat, log_block_len as nat);
            lemma_pow2_pos((7 - log_block_len) as nat);
            assert((8 - log_block_len) as nat == (7 - log_block_len) as nat + 1);
        }
        let half = pow2_u64(7 - log_block_len) as usize;
        let mut picks: Vec<(bool, usize)> = Vec::new();
        let mut k: usize = 0;
        while k < n
            invariant
                k <= n,
                n == 2 * half,
                half >= 1,
                n <= 256,
                half == pow2((7 - log_block_len) as nat),
                picks.len() == k,
                forall|i: int|
                    0 <= i < k ==> (#[trigger] picks[i]).1 < n && picks[i].1 == transpose_source(
                        log_block_len as nat,
                        i as nat,
                        second,
                    ) && picks[i].0 == (i >= half),
            decreases n - k,
        {
            let source = 2 * (k % half) + (if second {
                1
            } else {
                0
            });
            picks.push((k >= half, source));
            k = k + 1;
        }
        let r = gather(self, other, log_block_len, &picks);
        proof {
            assert forall|p: nat| p < 256 implies #[trigger] r.bit(p) == (if p < 128 {
                self
            } else {
                other
            }).bit(
                transpose_source(log_block_len as nat, p / pow2(log_block_len as nat), second)
                    * pow2(log_block_len as nat) + p % pow2(log_block_len as nat),
            ) by {
                lemma_block_of_position(p, log_block_len as nat);
                let i = p as int / len as int;
                assert(picks[i].1 == transpose_source(log_block_len as nat, i as nat, second));
                // the upper half of the blocks is the upper lane
                assert(half * len == 128);
                assert((i >= half) == (p >= 128)) by (nonlinear_arith)
                    requires
                        p == i * len + p % (len as nat),
                        0 <= p % (len as nat) < len,
                        half * len == 128,
                        i >= 0,
                ;
            }
        }
        r
    }
}

} // verus!
