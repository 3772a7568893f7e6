//! Transform sizes: the power-of-two rule that every FFT length obeys,
//! and the errors of the transform and window primitives.
use vstd::prelude::*;

verus! {

/// Whether `n` is a power of two (1, 2, 4, ...).
pub open spec fn is_pow2(n: nat) -> bool
    decreases n,
{
    if n == 0 {
        false
    } else if n == 1 {
        true
    } else {
        n % 2 == 0 && is_pow2(n / 2)
    }
}

/// Errors of the transform and window primitives.
#[derive(Debug, PartialEq, Eq)]
pub enum CoreError {
    /// The transform length is not a power of two.
    InvalidFftSize(usize),
    /// A buffer's length (first) differs from the window's (second).
    WindowSizeMismatch(usize, usize),
    /// A hop size that does not fit the window size.
    InvalidHopSize { hop: usize, window: usize },
    /// A numerical failure, described in words.
    Numerical(String),
}

/// Size helpers for the transform.
pub struct Fft;

impl Fft {
    /// Whether `size` can be the length of a transform.
    pub fn is_valid_size(size: usize) -> (r: bool)
        ensures
            r == is_pow2(size as nat),
    {
        if size == 0 {
            return false;
        }
        let mut m: usize = size;
        while m > 1 && m % 2 == 0
            invariant
                m > 0,
                is_pow2(size as nat) == is_pow2(m as nat),
            decreases m,
        {
            m = m / 2;
        }
        m == 1
    }

    /// The smallest power of two that is at least `n` (1 for 0).
    pub fn next_power_of_two(n: usize) -> (r: usize)
        requires
            n <= usize::MAX / 2 + 1,
        ensures
            is_pow2(r as nat),
            r >= n,
            r == 1 || r / 2 < n,
    {
        let mut p: usize = 1;
        while p < n
            invariant
                is_pow2(p as nat),
                p == 1 || p / 2 < n,
                n <= usize::MAX / 2 + 1,
            decreases usize::MAX - p,
        {
            assert(is_pow2(2 * p as nat)) by {
                assert((2 * p as nat) / 2 == p as nat);
            }
            p = p * 2;
        }
        p
    }
}

/// Checks a transform length: `Ok` exactly for a power of two.
pub fn check_fft_size(size: usize) -> (r: Result<(), CoreError>)
    ensures
        r is Ok <==> is_pow2(size as nat),
        r is Err ==> r == Err::<(), CoreError>(CoreError::InvalidFftSize(size)),
{
    if Fft::is_valid_size(size) {
        Ok(())
    } else {
        Err(CoreError::InvalidFftSize(size))
    }
}

/// Checks that a buffer of `len` samples fits a window of `size` points.
pub fn check_window_fit(len: usize, size: usize) -> (r: Result<(), CoreError>)
    ensures
        r is Ok <==> len == size,
        r is Err ==> r == Err::<(), CoreError>(CoreError::WindowSizeMismatch(len, size)),
{
    if len == size {
        Ok(())
    } else {
        Err(CoreError::WindowSizeMismatch(len, size))
    }
}

} // verus!
