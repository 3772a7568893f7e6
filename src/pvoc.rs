//! The integer and bit-level side of the phase vocoder: analysis and
//! synthesis parameters, frame counts, the layout of spectral frames,
//! band extraction and the averaging spans of spectral blur.
//!
//! Spectral values are `f32` numbers held as their IEEE-754 bit patterns
//! (`f32::to_bits`), so that moving, keeping, zeroing and conjugating
//! values is exact and visible to the proofs.
use vstd::prelude::*;
use crate::fft::{is_pow2, Fft};

verus! {

/// The bit pattern of `0.0f32`.
pub const ZERO_BITS: u32 = 0;

/// The sign bit of an `f32` bit pattern.
pub const SIGN_BIT: u32 = 0x8000_0000;

/// Errors of analysis, synthesis and band extraction.
#[derive(Debug, PartialEq, Eq)]
pub enum PvocError {
    /// A read or write failed; the message says why.
    Io(String),
    /// The spectral file does not have the expected layout.
    InvalidFormat,
    /// A parameter is out of range; the message says which.
    InvalidParams(String),
}

/// Default transform length of the analysis.
pub const DEFAULT_FFT_SIZE: u32 = 1024;

/// Default overlap factor of the analysis.
pub const DEFAULT_OVERLAP: u32 = 3;

/// Largest transform length of the analysis.
pub const MAX_FFT_SIZE: u32 = 32768;

/// Validated parameters of one analysis run.
#[derive(Debug, Clone, Copy, PartialEq, Eq)]
pub struct AnalParams {
    /// 1 = real/imaginary pairs, 2 = envelope, 3 = magnitude only.
    pub mode: u32,
    pub fft_size: u32,
    pub overlap: u32,
    pub hop_size: u32,
}

/// Whether `fft_size` is an accepted analysis length.
pub open spec fn fft_size_ok(fft_size: nat) -> bool {
    2 <= fft_size <= MAX_FFT_SIZE && is_pow2(fft_size)
}

/// Whether a mode, a length and an overlap factor are accepted.
pub open spec fn anal_ok(mode: nat, fft_size: nat, overlap: nat) -> bool {
    1 <= mode <= 3 && fft_size_ok(fft_size) && 1 <= overlap <= 4
}

/// Checks the analysis parameters, filling in the defaults (length
/// 1024, overlap 3) for those not given.
pub fn anal_params(mode: u32, fft_size: Option<u32>, overlap: Option<u32>) -> (r: Result<
    AnalParams,
    PvocError,
>)
    ensures
        ({
            let n = match fft_size {
                Some(v) => v,
                None => DEFAULT_FFT_SIZE,
            };
            let o = match overlap {
                Some(v) => v,
                None => DEFAULT_OVERLAP,
            };
            &&& r is Ok <==> anal_ok(mode as nat, n as nat, o as nat)
            &&& r is Ok ==> r->Ok_0 == (AnalParams {
                mode,
                fft_size: n,
                overlap: o,
                hop_size: n / o,
            })
            &&& r is Err ==> r->Err_0 is InvalidParams
        }),
{
    let n = match fft_size {
        Some(v) => v,
        None => DEFAULT_FFT_SIZE,
    };
    let o = match overlap {
        Some(v) => v,
        None => DEFAULT_OVERLAP,
    };
    if n < 2 || n > MAX_FFT_SIZE || !Fft::is_valid_size(n as usize) {
        return Err(
            PvocError::InvalidParams(String::from_str("FFT size must be power of 2 between 2 and 32768")),
        );
    }
    if o < 1 || o > 4 {
        return Err(PvocError::InvalidParams(String::from_str("Overlap must be between 1 and 4")));
    }
    if mode < 1 || mode > 3 {
        return Err(PvocError::InvalidParams(String::from_str("Invalid mode")));
    }
    Ok(AnalParams { mode, fft_size: n, overlap: o, hop_size: n / o })
}

/// The header of the spectral file an analysis of sound at `sample_rate`
/// with parameters `p` writes: its frame length is the one its window
/// length gives.
pub fn anal_header(sample_rate: u32, p: &AnalParams) -> (h: crate::ana::AnaHeader)
    requires
        anal_ok(p.mode as nat, p.fft_size as nat, p.overlap as nat),
    ensures
        h == (crate::ana::AnaHeader {
            sample_rate,
            channels: ((p.fft_size / 2 + 1) * 2) as u16,
            window_len: p.fft_size,
            dec_factor: p.overlap,
        }),
        crate::ana::frame_len_matches(h),
{
    crate::ana::AnaHeader {
        sample_rate,
        channels: ((p.fft_size / 2 + 1) * 2) as u16,
        window_len: p.fft_size,
        dec_factor: p.overlap,
    }
}

/// Number of analysis frames over `num_samples` samples: one for each
/// start `k * hop` with `k * hop + fft_size <= num_samples`.
pub open spec fn frame_count_spec(num_samples: nat, fft_size: nat, hop: nat) -> nat
    recommends
        hop > 0,
{
    if num_samples < fft_size {
        0
    } else {
        ((num_samples - fft_size) as nat / hop) + 1
    }
}

/// The number of whole frames the analysis takes from `num_samples`
/// samples; a trailing partial frame is dropped.
pub fn anal_frame_count(num_samples: usize, fft_size: usize, hop: usize) -> (r: usize)
    requires
        hop > 0,
        fft_size > 0,
    ensures
        r == frame_count_spec(num_samples as nat, fft_size as nat, hop as nat),
        forall|k: nat| k < r ==> #[trigger] (k * hop) + fft_size <= num_samples,
        r * hop + fft_size > num_samples,
{
    if num_samples < fft_size {
        assert(0 * hop + fft_size > num_samples);
        0
    } else {
        assert((num_samples - fft_size) / (hop as int) <= num_samples - fft_size) by (nonlinear_arith)
            requires
                hop > 0,
                num_samples >= fft_size,
        ;
        let r = (num_samples - fft_size) / hop + 1;
        proof {
            let m = num_samples as int - fft_size as int;
            let q = m / (hop as int);
            assert(q * hop <= m < q * hop + hop) by (nonlinear_arith)
                requires
                    q == m / (hop as int),
                    hop > 0,
                    m >= 0,
            ;
            assert forall|k: nat| k < r implies #[trigger] (k * hop) + fft_size <= num_samples by {
                assert(k * hop <= q * hop) by (nonlinear_arith)
                    requires
                        k <= q,
                        hop > 0,
                ;
            }
            assert(r * hop == q * hop + hop) by (nonlinear_arith)
                requires
                    r == q + 1,
            ;
        }
        r
    }
}

/// Number of interleaved values in a frame of an `fft_size` analysis.
pub open spec fn frame_len(fft_size: nat) -> nat {
    (fft_size / 2 + 1) * 2
}

/// Packs a standard (mode 1) frame: the real and imaginary parts of bins
/// `0..=n/2` of a length-`n` spectrum, interleaved.
pub fn pack_standard_frame(spectrum: &Vec<(u32, u32)>) -> (r: Vec<u32>)
    requires
        spectrum@.len() >= 1,
    ensures
        r@.len() == frame_len(spectrum@.len() as nat),
        forall|b: int|
            0 <= b < spectrum@.len() / 2 + 1 ==> r@[2 * b] == (#[trigger] spectrum@[b]).0 && r@[2
                * b + 1] == spectrum@[b].1,
{
    let half = spectrum.len() / 2;
    let mut r: Vec<u32> = Vec::new();
    let mut b: usize = 0;
    while b <= half
        invariant
            spectrum@.len() >= 1,
            half == spectrum@.len() / 2,
            half < usize::MAX,
            b <= half + 1,
            r@.len() == 2 * b,
            forall|c: int|
                0 <= c < b ==> r@[2 * c] == (#[trigger] spectrum@[c]).0 && r@[2 * c + 1]
                    == spectrum@[c].1,
        decreases half + 1 - b,
    {
        r.push(spectrum[b].0);
        r.push(spectrum[b].1);
        b += 1;
    }
    r
}

/// A magnitude frame: each magnitude followed by a zero.
pub open spec fn magnitude_frame(mags: Seq<u32>) -> Seq<u32> {
    Seq::new(2 * mags.len(), |i: int| if i % 2 == 0 { mags[i / 2] } else { ZERO_BITS })
}

/// Packs a magnitude (mode 2 or 3) frame: each magnitude followed by a zero.
pub fn pack_magnitude_frame(mags: &Vec<u32>) -> (r: Vec<u32>)
    requires
        mags@.len() < usize::MAX / 2,
    ensures
        r@ == magnitude_frame(mags@),
{
    let mut r: Vec<u32> = Vec::new();
    let mut b: usize = 0;
    while b < mags.len()
        invariant
            b <= mags@.len(),
            r@ == magnitude_frame(mags@.subrange(0, b as int)),
        decreases mags@.len() - b,
    {
        r.push(mags[b]);
        r.push(ZERO_BITS);
        b += 1;
        assert(r@ =~= magnitude_frame(mags@.subrange(0, b as int)));
    }
    assert(mags@.subrange(0, b as int) =~= mags@);
    r
}

/// Parameters of a synthesis run, derived from a spectral file's header.
#[derive(Debug, Clone, Copy, PartialEq, Eq)]
pub struct SynthParams {
    pub fft_size: u32,
    pub hop_size: u32,
}

/// Derives the transform length and hop of a synthesis run from the
/// frame length (`channels`) and the overlap factor of the file. The
/// length is `(channels / 2 - 1) * 2`; it must be an accepted analysis
/// length and the overlap factor must lie in `1..=4`.
pub fn synth_params(channels: u32, dec_factor: u32) -> (r: Result<SynthParams, PvocError>)
    ensures
        r is Ok <==> (channels >= 2 && fft_size_ok(((channels / 2 - 1) * 2) as nat) && 1
            <= dec_factor <= 4),
        r is Ok ==> r->Ok_0.fft_size == (channels / 2 - 1) * 2 && r->Ok_0.hop_size
            == r->Ok_0.fft_size / dec_factor,
        r is Err ==> r == Err::<SynthParams, PvocError>(PvocError::InvalidFormat),
{
    if channels < 2 {
        return Err(PvocError::InvalidFormat);
    }
    let n = (channels / 2 - 1) * 2;
    if n < 2 || n > MAX_FFT_SIZE || !Fft::is_valid_size(n as usize) || dec_factor < 1
        || dec_factor > 4 {
        return Err(PvocError::InvalidFormat);
    }
    Ok(SynthParams { fft_size: n, hop_size: n / dec_factor })
}

/// Length of the overlap-add output of `num_frames` frames.
pub fn synth_output_len(num_frames: usize, hop: usize, fft_size: usize) -> (r: usize)
    requires
        num_frames >= 1,
        (num_frames - 1) * hop + fft_size <= usize::MAX,
    ensures
        r == (num_frames - 1) * hop + fft_size,
{
    (num_frames - 1) * hop + fft_size
}

/// The conjugate of a complex value held as bit patterns: the sign of the
/// imaginary part is flipped.
pub open spec fn conj_bits(v: (u32, u32)) -> (u32, u32) {
    (v.0, v.1 ^ SIGN_BIT)
}

/// Bin `k` of the full spectrum rebuilt from a frame, before mirroring:
/// bins `0..=n/2` come from the frame's pairs, as far as the frame reaches.
pub open spec fn half_bin(frame: Seq<u32>, k: int) -> (u32, u32) {
    if 2 * k + 1 < frame.len() {
        (frame[2 * k], frame[2 * k + 1])
    } else {
        (ZERO_BITS, ZERO_BITS)
    }
}

/// Bin `k` of the length-`n` spectrum rebuilt from a frame: bins above
/// `n/2` are the conjugates of the mirrored bins below it.
pub open spec fn full_bin(frame: Seq<u32>, n: int, k: int) -> (u32, u32) {
    if k <= n / 2 {
        half_bin(frame, k)
    } else if n - k < n / 2 {
        conj_bits(half_bin(frame, n - k))
    } else {
        (ZERO_BITS, ZERO_BITS)
    }
}

/// Rebuilds the length-`fft_size` spectrum of a frame, with
/// `X[n - k] = conj(X[k])` for `k` in `1..n/2`.
#[verifier::rlimit(40)]
pub fn mirror_spectrum(frame: &Vec<u32>, fft_size: usize) -> (r: Vec<(u32, u32)>)
    requires
        fft_size >= 2,
        fft_size % 2 == 0,
    ensures
        r@.len() == fft_size,
        forall|k: int| 0 <= k < fft_size ==> #[trigger] r@[k] == full_bin(frame@, fft_size as int, k),
{
    let half = fft_size / 2;
    let mut r: Vec<(u32, u32)> = Vec::new();
    let mut k: usize = 0;
    while k < fft_size
        invariant
            half == fft_size / 2,
            fft_size % 2 == 0,
            k <= fft_size,
            r@.len() == k,
            forall|j: int| 0 <= j < k ==> #[trigger] r@[j] == full_bin(frame@, fft_size as int, j),
        decreases fft_size - k,
    {
        let v = if k <= half {
            if k < frame.len() / 2 {
                (frame[2 * k], frame[2 * k + 1])
            } else {
                (ZERO_BITS, ZERO_BITS)
            }
        } else {
            let m = fft_size - k;
            if m < half {
                if m < frame.len() / 2 {
                    (frame[2 * m], frame[2 * m + 1] ^ SIGN_BIT)
                } else {
                    (ZERO_BITS, ZERO_BITS ^ SIGN_BIT)
                }
            } else {
                (ZERO_BITS, ZERO_BITS)
            }
        };
        r.push(v);
        k += 1;
    }
    r
}

/// Value `i` of the flat sample sequence after band extraction: bin
/// `(i % channels) / 2` is kept when it is DC, Nyquist, or lies in
/// `lo_bin..=min(hi_bin, n/2)`; any other value becomes zero.
pub open spec fn extract_value(s: Seq<u32>, channels: nat, lo_bin: nat, hi_bin: nat, i: int) -> u32 {
    let n = ((channels / 2 - 1) * 2) as nat;
    let j = i % (channels as int);
    let bin = j / 2;
    let hi = if hi_bin < n / 2 {
        hi_bin
    } else {
        n / 2
    };
    if bin > n / 2 {
        ZERO_BITS
    } else if bin == 0 || bin == n / 2 || (lo_bin <= bin && bin <= hi) {
        s[i]
    } else {
        ZERO_BITS
    }
}

/// Keeps the bins `lo_bin..=hi_bin` of every frame (with `hi_bin` clamped
/// to Nyquist), and always DC and Nyquist; every other value becomes zero.
/// Frames are `channels` values long, the transform length is
/// `(channels / 2 - 1) * 2`.
#[verifier::rlimit(40)]
pub fn extract_band(samples: &Vec<u32>, channels: usize, lo_bin: usize, hi_bin: usize) -> (r: Vec<
    u32,
>)
    requires
        channels >= 2,
    ensures
        r@.len() == samples@.len(),
        forall|i: int|
            0 <= i < samples@.len() ==> #[trigger] r@[i] == extract_value(
                samples@,
                channels as nat,
                lo_bin as nat,
                hi_bin as nat,
                i,
            ),
{
    let n = (channels / 2 - 1) * 2;
    let half = n / 2;
    let hi = if hi_bin < half {
        hi_bin
    } else {
        half
    };
    let mut r: Vec<u32> = Vec::new();
    let mut i: usize = 0;
    while i < samples.len()
        invariant
            channels >= 2,
            n == (channels / 2 - 1) * 2,
            half == n / 2,
            hi == (if hi_bin < half {
                hi_bin
            } else {
                half
            }),
            i <= samples@.len(),
            r@.len() == i,
            forall|k: int|
                0 <= k < i ==> #[trigger] r@[k] == extract_value(
                    samples@,
                    channels as nat,
                    lo_bin as nat,
                    hi_bin as nat,
                    k,
                ),
        decreases samples@.len() - i,
    {
        let bin = (i % channels) / 2;
        let v = if bin > half {
            ZERO_BITS
        } else if bin == 0 || bin == half || (lo_bin <= bin && bin <= hi) {
            samples[i]
        } else {
            ZERO_BITS
        };
        r.push(v);
        i += 1;
    }
    r
}

/// Extracting from bin 0 (or 1) up to Nyquist or beyond leaves every value
/// as it was: the band covers every bin of frames of an `fft_size`
/// analysis, which are `(fft_size / 2 + 1) * 2` values long.
pub proof fn lemma_extract_full_band_identity(
    s: Seq<u32>,
    fft_size: nat,
    lo_bin: nat,
    hi_bin: nat,
    i: int,
)
    requires
        fft_size >= 2,
        lo_bin <= 1,
        hi_bin >= fft_size / 2,
        0 <= i < s.len(),
    ensures
        extract_value(s, frame_len(fft_size), lo_bin, hi_bin, i) == s[i],
{
    let c = frame_len(fft_size);
    assert(((c / 2 - 1) * 2) as nat / 2 == fft_size / 2);
}

/// DC (bin 0) and Nyquist (bin `n/2`) pass through band extraction
/// unchanged, whatever the band.
pub proof fn lemma_extract_keeps_dc_nyquist(
    s: Seq<u32>,
    channels: nat,
    lo_bin: nat,
    hi_bin: nat,
    i: int,
)
    requires
        channels >= 2,
        0 <= i < s.len(),
        ({
            let b = (i % (channels as int)) / 2;
            b == 0 || b == ((channels / 2 - 1) * 2) as nat / 2
        }),
    ensures
        extract_value(s, channels, lo_bin, hi_bin, i) == s[i],
{
}

/// The averaging span of frame `w` among `n` frames for a blur of `bw`
/// windows (`bw` odd): `[max(0, w - bw/2), min(n, w + bw/2 + 1))`.
pub open spec fn span_spec(w: nat, n: nat, bw: nat) -> (nat, nat) {
    let half = bw / 2;
    let start = if w >= half {
        (w - half) as nat
    } else {
        0
    };
    let end = if w + half < n {
        w + half + 1
    } else {
        n
    };
    (start, end)
}

/// The odd window count a blur of `bw` windows uses: `bw`, or `bw + 1`
/// when `bw` is even.
pub open spec fn odd_width(bw: nat) -> nat {
    if bw % 2 == 0 {
        bw + 1
    } else {
        bw
    }
}

/// The averaging span of frame `w` among `n` frames for a blur of `bw`
/// windows; an even `bw` acts as the next odd count.
pub fn blur_span(w: usize, n: usize, bw: u32) -> (r: (usize, usize))
    requires
        w < n,
    ensures
        r.0 == span_spec(w as nat, n as nat, odd_width(bw as nat)).0,
        r.1 == span_spec(w as nat, n as nat, odd_width(bw as nat)).1,
        r.0 <= w < r.1 <= n,
{
    assert(bw / 2 == odd_width(bw as nat) / 2);
    let half = (bw / 2) as usize;
    let start = if w >= half {
        w - half
    } else {
        0
    };
    let end = if half < n - w {
        w + half + 1
    } else {
        n
    };
    (start, end)
}

/// Checks a blur width: zero is refused.
pub fn check_blur_width(blur_windows: u32) -> (r: Result<(), crate::ana::SpectralError>)
    ensures
        r is Ok <==> blur_windows > 0,
        r is Err ==> r->Err_0 is InvalidInput,
{
    if blur_windows == 0 {
        Err(crate::ana::SpectralError::InvalidInput(String::from_str("Blur windows must be greater than 0")))
    } else {
        Ok(())
    }
}

/// Validates a blur of `blur_windows` windows over `num_windows` frames
/// and gives the averaging span of every frame. An even count is raised to
/// the next odd one; a count of zero, or a file without frames, is refused.
#[verifier::rlimit(40)]
pub fn blur(num_windows: usize, blur_windows: u32) -> (r: Result<
    Vec<(usize, usize)>,
    crate::ana::SpectralError,
>)
    ensures
        r is Ok <==> blur_windows > 0 && num_windows > 0,
        r is Err ==> r->Err_0 is InvalidInput,
        r is Ok ==> r->Ok_0@.len() == num_windows && forall|w: int|
            0 <= w < num_windows ==> (#[trigger] r->Ok_0@[w]).0 == span_spec(
                w as nat,
                num_windows as nat,
                odd_width(blur_windows as nat),
            ).0 && r->Ok_0@[w].1 == span_spec(
                w as nat,
                num_windows as nat,
                odd_width(blur_windows as nat),
            ).1,
{
    check_blur_width(blur_windows)?;
    if num_windows == 0 {
        return Err(
            crate::ana::SpectralError::InvalidInput(String::from_str("Input file has no spectral data")),
        );
    }
    let mut spans: Vec<(usize, usize)> = Vec::new();
    let mut w: usize = 0;
    while w < num_windows
        invariant
            w <= num_windows,
            spans@.len() == w,
            forall|v: int|
                0 <= v < w ==> (#[trigger] spans@[v]).0 == span_spec(
                    v as nat,
                    num_windows as nat,
                    odd_width(blur_windows as nat),
                ).0 && spans@[v].1 == span_spec(
                    v as nat,
                    num_windows as nat,
                    odd_width(blur_windows as nat),
                ).1,
        decreases num_windows - w,
    {
        let s = blur_span(w, num_windows, blur_windows);
        spans.push(s);
        w += 1;
    }
    Ok(spans)
}

/// A blur of one window averages every frame over itself alone.
pub proof fn lemma_blur_width_one_is_identity(w: nat, n: nat)
    requires
        w < n,
    ensures
        span_spec(w, n, odd_width(1)) == (w, w + 1),
{
}

/// Blurring over more windows never narrows a frame's averaging span:
/// the span for `b1` windows lies inside the span for `b2 >= b1`.
pub proof fn lemma_blur_spans_nest(w: nat, n: nat, b1: nat, b2: nat)
    requires
        w < n,
        b1 <= b2,
    ensures
        span_spec(w, n, odd_width(b2)).0 <= span_spec(w, n, odd_width(b1)).0,
        span_spec(w, n, odd_width(b1)).1 <= span_spec(w, n, odd_width(b2)).1,
{
}

} // verus!
