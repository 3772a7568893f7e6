//! Phase-vocoder spectral file handling: the RIFF/WAVE and `.ana`
//! containers, channel operations on 16-bit PCM, and the integer and
//! bit-level parts of analysis, synthesis, band extraction and blurring.
//!
//! Spectral and sample values that are `f32` numbers are held as their
//! bit patterns, so that every move, copy, zeroing and conjugation is
//! exact. The arithmetic on them (transforms, averages, interpolation)
//! is the caller's.
//!
//! - `bytes`, `text`: little-endian fields and ASCII numbers.
//! - `fft`: transform sizes and the errors of the primitives.
//! - `pvoc`: analysis and synthesis parameters, frame layout, band
//!   extraction, blur spans.
//! - `ana`, `ana_laws`: the `.ana` container and its round trip.
//! - `wav`, `wav_laws`: 16-bit PCM files with marker chunks, and their
//!   round trip.
//! - `riff`: chunk lists and file comparison.
//! - `chans`: channel extraction and mono mixing.
//! - `props`: file properties.
//! - `cli`: which operation a command line asks for.
use vstd::prelude::*;

pub mod ana;
pub mod ana_laws;
pub mod bytes;
pub mod chans;
pub mod cli;
pub mod fft;
pub mod props;
pub mod pvoc;
pub mod riff;
pub mod text;
pub mod wav;
pub mod wav_laws;

verus! {

} // verus!
