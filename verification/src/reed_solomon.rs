//! The shape of a Reed–Solomon code: its dimension and its rate, as binary logarithms.

use vstd::arithmetic::power2::pow2;
use vstd::bits::lemma_usize_pow2_no_overflow;
use vstd::prelude::*;

use crate::error::Error;
use crate::log2::pow2_u64;

verus! {

/// A Reed–Solomon code over a binary field, described by the logarithm of its dimension and
/// the logarithm of its inverse rate.
///
/// The block length `2^(log_dim + log_inv_rate)` of every value of this type fits in a `usize`.
#[derive(Clone, Copy, Debug)]
pub struct ReedSolomonCode {
    log_dimension: usize,
    log_inv_rate: usize,
}

/// Whether a code of this shape has a block length that a `usize` can hold.
pub open spec fn code_shape_valid(log_dim: nat, log_inv_rate: nat) -> bool {
    log_dim + log_inv_rate < usize::BITS
}

impl ReedSolomonCode {
    #[verifier::type_invariant]
    spec fn inv(self) -> bool {
        self.wf()
    }

    /// The binary logarithm of the dimension.
    pub closed spec fn spec_log_dim(&self) -> nat {
        self.log_dimension as nat
    }

    /// The binary logarithm of the inverse rate.
    pub closed spec fn spec_log_inv_rate(&self) -> nat {
        self.log_inv_rate as nat
    }

    /// The binary logarithm of the block length.
    pub open spec fn spec_log_len(&self) -> nat {
        self.spec_log_dim() + self.spec_log_inv_rate()
    }

    /// What holds of every code that the constructors return.
    pub open spec fn wf(&self) -> bool {
        code_shape_valid(self.spec_log_dim(), self.spec_log_inv_rate())
    }

    /// The code of dimension `2^log_dim` and rate `2^-log_inv_rate`.
    ///
    /// Fails with [`Error::CodeLengthOutOfRange`] exactly when the block length does not fit
    /// in a `usize`.
    pub fn new(log_dim: usize, log_inv_rate: usize) -> (r: Result<ReedSolomonCode, Error>)
        ensures
            code_shape_valid(log_dim as nat, log_inv_rate as nat) ==> r is Ok
                && r->Ok_0.spec_log_dim() == log_dim && r->Ok_0.spec_log_inv_rate()
                == log_inv_rate && r->Ok_0.wf(),
            !code_shape_valid(log_dim as nat, log_inv_rate as nat) ==> r == Err::<
                ReedSolomonCode,
                Error,
            >(Error::CodeLengthOutOfRange),
    {
        match log_dim.checked_add(log_inv_rate) {
            Some(log_len) => {
                if log_len < usize::BITS as usize {
                    Ok(ReedSolomonCode { log_dimension: log_dim, log_inv_rate })
                } else {
                    Err(Error::CodeLengthOutOfRange)
                }
            },
            None => Err(Error::CodeLengthOutOfRange),
        }
    }

    /// The code of dimension `2^log_dim` and rate `2^-log_inv_rate` whose evaluation points
    /// are taken from a domain of `2^log_domain_size` points.
    ///
    /// Fails with [`Error::CodeLengthOutOfRange`] exactly when the block length exceeds the
    /// domain or does not fit in a `usize`.
    pub fn with_ntt_subspace(log_domain_size: usize, log_dim: usize, log_inv_rate: usize) -> (r:
        Result<ReedSolomonCode, Error>)
        ensures
            (code_shape_valid(log_dim as nat, log_inv_rate as nat) && log_dim + log_inv_rate
                <= log_domain_size) ==> r is Ok && r->Ok_0.spec_log_dim() == log_dim
                && r->Ok_0.spec_log_inv_rate() == log_inv_rate && r->Ok_0.wf(),
            !(code_shape_valid(log_dim as nat, log_inv_rate as nat) && log_dim + log_inv_rate
                <= log_domain_size) ==> r == Err::<ReedSolomonCode, Error>(
                Error::CodeLengthOutOfRange,
            ),
    {
        match ReedSolomonCode::new(log_dim, log_inv_rate) {
            Ok(code) => {
                if log_dim + log_inv_rate <= log_domain_size {
                    Ok(code)
                } else {
                    Err(Error::CodeLengthOutOfRange)
                }
            },
            Err(e) => Err(e),
        }
    }

    /// The repetition code of the same rate: the code whose messages are single symbols.
    pub fn repetition(&self) -> (r: ReedSolomonCode)
        ensures
            r.spec_log_dim() == 0,
            r.spec_log_inv_rate() == self.spec_log_inv_rate(),
            r.wf(),
    {
        proof {
            use_type_invariant(self);
        }
        ReedSolomonCode { log_dimension: 0, log_inv_rate: self.log_inv_rate }
    }

    /// The binary logarithm of the dimension.
    pub fn log_dim(&self) -> (r: usize)
        ensures
            r == self.spec_log_dim(),
            self.wf(),
    {
        proof {
            use_type_invariant(self);
        }
        self.log_dimension
    }

    /// The binary logarithm of the inverse rate.
    pub fn log_inv_rate(&self) -> (r: usize)
        ensures
            r == self.spec_log_inv_rate(),
            self.wf(),
    {
        proof {
            use_type_invariant(self);
        }
        self.log_inv_rate
    }

    /// The binary logarithm of the block length.
    pub fn log_len(&self) -> (r: usize)
        ensures
            r == self.spec_log_len(),
            self.wf(),
    {
        proof {
            use_type_invariant(self);
        }
        self.log_dimension + self.log_inv_rate
    }

    /// The block length.
    pub fn len(&self) -> (r: usize)
        ensures
            r == pow2(self.spec_log_len()),
            self.wf(),
    {
        proof {
            use_type_invariant(self);
            lemma_usize_pow2_no_overflow(self.spec_log_len());
        }
        pow2_u64(self.log_dimension + self.log_inv_rate) as usize
    }

    /// The dimension: the number of symbols in a message.
    pub fn dim(&self) -> (r: usize)
        ensures
            r == pow2(self.spec_log_dim()),
            self.wf(),
    {
        proof {
            use_type_invariant(self);
            lemma_usize_pow2_no_overflow(self.spec_log_dim());
        }
        pow2_u64(self.log_dimension) as usize
    }
}

} // verus!
