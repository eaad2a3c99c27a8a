//! A 256-bit word as 32 bytes, least significant byte first.

use vstd::prelude::*;

use crate::m256::M256;

verus! {

/// How a value is laid out in bytes. A 256-bit word is laid out alike in every mode.
#[derive(Clone, Copy, Debug, PartialEq, Eq, Structural)]
pub enum SerializationMode {
    /// The layout of the machine representation.
    Native,
    /// The layout of the canonical tower basis.
    CanonicalTower,
}

/// Why bytes could not be read.
#[derive(Clone, Copy, Debug, PartialEq, Eq, Structural)]
pub enum SerializationError {
    /// The buffer holds fewer bytes than the value takes.
    NotEnoughBytes,
}

/// Byte `k` of a lane, counted from the least significant.
pub open spec fn lane_byte(x: u128, k: nat) -> u8 {
    ((x >> ((8 * k) as u128)) & 0xff) as u8
}

/// The 16 bytes of a lane, least significant first.
pub open spec fn lane_le_bytes(x: u128) -> Seq<u8> {
    Seq::new(16, |k: int| lane_byte(x, k as nat))
}

/// The lane whose bytes, least significant first, are the first 16 of `s`.
pub open spec fn lane_from_le_bytes(s: Seq<u8>) -> u128 {
    lane_from_le_bytes_upto(s, 16)
}

/// The number whose bytes, least significant first, are the first `n` of `s`.
pub open spec fn lane_from_le_bytes_upto(s: Seq<u8>, n: nat) -> u128
    decreases n,
{
    if n == 0 {
        0
    } else {
        lane_from_le_bytes_upto(s, (n - 1) as nat) | ((s[n - 1] as u128) << ((8 * (n - 1)) as u128))
    }
}

impl M256 {
    /// The 32 bytes of the value, least significant first.
    pub open spec fn le_bytes(self) -> Seq<u8> {
        lane_le_bytes(self.lo) + lane_le_bytes(self.hi)
    }

    /// The value whose bytes, least significant first, are the first 32 of `s`.
    pub open spec fn from_le_bytes(s: Seq<u8>) -> M256 {
        M256 { lo: lane_from_le_bytes(s.subrange(0, 16)), hi: lane_from_le_bytes(s.subrange(16, 32)) }
    }
}

/// The first `n` bytes of a lane make up its lowest `8 n` bits.
proof fn lemma_lane_bytes_upto(x: u128, n: nat)
    requires
        n <= 16,
    ensures
        n < 16 ==> lane_from_le_bytes_upto(lane_le_bytes(x), n) == x & !(u128::MAX << ((8 * n) as u128)),
        n == 16 ==> lane_from_le_bytes_upto(lane_le_bytes(x), n) == x,
    decreases n,
{
    if n == 0 {
        assert(x & !(u128::MAX << 0) == 0) by (bit_vector);
    } else {
        lemma_lane_bytes_upto(x, (n - 1) as nat);
        let s = (8 * (n - 1)) as u128;
        let low = lane_from_le_bytes_upto(lane_le_bytes(x), (n - 1) as nat);
        let b = lane_byte(x, (n - 1) as nat);
        assert(lane_le_bytes(x)[n - 1] == b);
        if n < 16 {
            let t = (8 * n) as u128;
            assert(low | ((b as u128) << s) == x & !(u128::MAX << t)) by (bit_vector)
                requires
                    low == x & !(u128::MAX << s),
                    b == ((x >> s) & 0xff) as u8,
                    s <= 112,
                    t == s + 8,
            ;
        } else {
            assert(low | ((b as u128) << s) == x) by (bit_vector)
                requires
                    low == x & !(u128::MAX << s),
                    b == ((x >> s) & 0xff) as u8,
                    s == 120,
            ;
        }
    }
}

/// Reading the bytes that a value is written as gives the value back.
pub proof fn lemma_bytes_round_trip(x: M256)
    ensures
        x.le_bytes().len() == 32,
        M256::from_le_bytes(x.le_bytes()) == x,
{
    lemma_lane_bytes_upto(x.lo, 16);
    lemma_lane_bytes_upto(x.hi, 16);
    assert(x.le_bytes().subrange(0, 16) =~= lane_le_bytes(x.lo));
    assert(x.le_bytes().subrange(16, 32) =~= lane_le_bytes(x.hi));
}

/// Appends the 16 bytes of a lane, least significant first.
fn put_u128_le(write_buf: &mut Vec<u8>, x: u128)
    ensures
        final(write_buf)@ == old(write_buf)@ + lane_le_bytes(x),
{
    let ghost start = write_buf@;
    let mut k: usize = 0;
    while k < 16
        invariant
            k <= 16,
            write_buf@.len() == start.len() + k,
            write_buf@ =~= start + lane_le_bytes(x).take(k as int),
        decreases 16 - k,
    {
        let byte = ((x >> ((8 * k) as u128)) & 0xff) as u8;
        write_buf.push(byte);
        k = k + 1;
    }
    proof {
        assert(lane_le_bytes(x).take(16) =~= lane_le_bytes(x));
    }
}

/// The lane whose bytes, least significant first, are the 16 bytes of `read_buf` from
/// `start` on.
fn get_u128_le(read_buf: &[u8], start: usize) -> (r: u128)
    requires
        start + 16 <= read_buf@.len(),
    ensures
        r == lane_from_le_bytes(read_buf@.subrange(start as int, start + 16)),
{
    let ghost s = read_buf@.subrange(start as int, start + 16);
    let len = read_buf.len();
    let mut x: u128 = 0;
    let mut k: usize = 0;
    while k < 16
        invariant
            k <= 16,
            start + 16 <= len,
            len == read_buf@.len(),
            s == read_buf@.subrange(start as int, start + 16),
            x == lane_from_le_bytes_upto(s, k as nat),
        decreases 16 - k,
    {
        let byte = read_buf[start + k];
        assert(s[k as int] == byte);
        x = x | ((byte as u128) << ((8 * k) as u128));
        k = k + 1;
    }
    x
}

impl M256 {
    /// Appends the 32 bytes of the value to `write_buf`, least significant first.
    pub fn serialize(&self, write_buf: &mut Vec<u8>, _mode: SerializationMode)
        ensures
            final(write_buf)@ == old(write_buf)@ + self.le_bytes(),
    {
        put_u128_le(write_buf, self.lo);
        put_u128_le(write_buf, self.hi);
        proof {
            assert(write_buf@ =~= old(write_buf)@ + self.le_bytes());
        }
    }

    /// The value that the first 32 bytes of `read_buf` stand for.
    ///
    /// Fails with [`SerializationError::NotEnoughBytes`] exactly when `read_buf` holds
    /// fewer than 32 bytes.
    pub fn deserialize(read_buf: &[u8], _mode: SerializationMode) -> (r: Result<
        M256,
        SerializationError,
    >)
        ensures
            read_buf@.len() < 32 ==> r == Err::<M256, SerializationError>(
                SerializationError::NotEnoughBytes,
            ),
            read_buf@.len() >= 32 ==> r == Ok::<M256, SerializationError>(
                M256::from_le_bytes(read_buf@),
            ),
    {
        if read_buf.len() < 32 {
            return Err(SerializationError::NotEnoughBytes);
        }
        let lo = get_u128_le(read_buf, 0);
        let hi = get_u128_le(read_buf, 16);
        Ok(M256 { lo, hi })
    }
}

} // verus!
