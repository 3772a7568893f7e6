//! Channel operations on interleaved 16-bit samples.
use vstd::prelude::*;
use crate::wav::{HousekeepError, WavFormat};

verus! {

/// Number of samples of channel `idx` (0-based) among `len` interleaved
/// samples of `c` channels.
pub open spec fn channel_len(len: nat, c: nat, idx: nat) -> nat
    recommends
        c > 0,
{
    if len > idx {
        ((len - idx - 1) as nat / c) + 1
    } else {
        0
    }
}

/// The samples of channel `idx` (0-based) of `s`, interleaved over `c`
/// channels.
pub open spec fn channel_of(s: Seq<i16>, c: nat, idx: nat) -> Seq<i16> {
    Seq::new(channel_len(s.len(), c, idx), |k: int| s[idx + k * c])
}

/// Takes channel `channel` (1-based) of a file of several channels: the
/// result is a mono file of that channel's samples.
#[verifier::rlimit(40)]
pub fn extract_channel_to(format: &WavFormat, samples: &Vec<i16>, channel: usize) -> (r: Result<
    (WavFormat, Vec<i16>),
    HousekeepError,
>)
    requires
        samples@.len() <= 0x7fff_ffff,
    ensures
        r is Ok <==> (channel >= 1 && format.channels != 1 && channel <= format.channels),
        r is Err ==> r->Err_0 is InvalidFile,
        r is Ok ==> ({
            let out = channel_of(samples@, format.channels as nat, (channel - 1) as nat);
            &&& r->Ok_0.1@ == out
            &&& r->Ok_0.0 == (WavFormat {
                channels: 1,
                data_size: (2 * out.len()) as u32,
                ..*format
            })
        }),
{
    if channel == 0 {
        return Err(HousekeepError::InvalidFile(String::from_str("Channel number must be 1 or greater")));
    }
    if format.channels == 1 {
        return Err(HousekeepError::InvalidFile(String::from_str("Cannot extract channel from mono file")));
    }
    if channel > format.channels as usize {
        return Err(HousekeepError::InvalidFile(String::from_str("Channel does not exist")));
    }
    let c = format.channels as usize;
    let idx = channel - 1;
    let ghost want = channel_of(samples@, c as nat, idx as nat);
    let mut out: Vec<i16> = Vec::new();
    let mut i = idx;
    let mut k: usize = 0;
    while i < samples.len()
        invariant
            2 <= c <= 0xffff,
            idx < c,
            samples@.len() <= 0x7fff_ffff,
            i == idx + k * c,
            out@ == want.subrange(0, k as int),
            k <= want.len(),
            want == channel_of(samples@, c as nat, idx as nat),
            i < samples@.len() ==> k < want.len(),
            i >= samples@.len() ==> k == want.len(),
        decreases samples@.len() + c - i,
    {
        out.push(samples[i]);
        assert(want[k as int] == samples@[idx + k * c]);
        assert(out@ =~= want.subrange(0, k + 1));
        proof {
            let len = samples@.len();
            let n = channel_len(len, c as nat, idx as nat);
            assert(n == (len - idx - 1) as nat / (c as nat) + 1);
            if i + c < len {
                assert((k + 1) * c <= len - idx - 1) by (nonlinear_arith)
                    requires
                        i == idx + k * c,
                        i + c < len,
                ;
                assert(k + 1 <= (len - idx - 1) as nat / (c as nat)) by (nonlinear_arith)
                    requires
                        (k + 1) * c <= len - idx - 1,
                        c >= 2,
                ;
            } else {
                assert((len - idx - 1) as nat / (c as nat) <= k) by (nonlinear_arith)
                    requires
                        i == idx + k * c,
                        i + c >= len,
                        i < len,
                        c >= 2,
                ;
            }
            assert((k + 1) * c == k * c + c) by (nonlinear_arith);
        }
        i = i + c;
        k += 1;
    }
    assert(out@ =~= want);
    let n = out.len();
    Ok((WavFormat { channels: 1, data_size: (2 * n) as u32, ..*format }, out))
}

/// `a / d` rounded toward zero.
pub open spec fn trunc_div(a: int, d: int) -> int
    recommends
        d > 0,
{
    if a >= 0 {
        a / d
    } else {
        -((-a) / d)
    }
}

/// `v` limited to the range of `i16`.
pub open spec fn clamp16(v: int) -> i16 {
    if v < -32768 {
        -32768i16
    } else if v > 32767 {
        32767i16
    } else {
        v as i16
    }
}

/// The sum of the first `n` samples of the frame starting at `i`, the
/// second channel of a stereo frame negated when `invert` holds.
pub open spec fn frame_sum(s: Seq<i16>, c: nat, i: int, n: nat, invert: bool) -> int
    decreases n,
{
    if n == 0 {
        0
    } else {
        let ch = n - 1;
        let v = s[i + ch] as int;
        let term = if invert && c == 2 && ch == 1 {
            -v
        } else {
            v
        };
        frame_sum(s, c, i, (n - 1) as nat, invert) + term
    }
}

/// Number of samples of the frame starting at `i` that `s` holds.
pub open spec fn frame_width(len: nat, c: nat, i: int) -> nat {
    if i + c <= len {
        c
    } else {
        (len - i) as nat
    }
}

/// The mono mix of `s`: for each frame, the sum of its samples divided by
/// the channel count, rounded toward zero and limited to `i16`.
pub open spec fn mono_mix(s: Seq<i16>, c: nat, invert: bool) -> Seq<i16> {
    Seq::new(
        channel_len(s.len(), c, 0),
        |k: int|
            clamp16(
                trunc_div(frame_sum(s, c, k * c, frame_width(s.len(), c, k * c), invert), c as int),
            ),
    )
}

proof fn lemma_frame_sum_bound(s: Seq<i16>, c: nat, i: int, n: nat, invert: bool)
    requires
        0 <= i,
        i + n <= s.len(),
    ensures
        -32768 * n <= frame_sum(s, c, i, n, invert) <= 32768 * n,
    decreases n,
{
    if n > 0 {
        lemma_frame_sum_bound(s, c, i, (n - 1) as nat, invert);
    }
}

/// Mixes a file of several channels down to one: each output sample is
/// the mean of a frame (the second channel of a stereo file subtracted
/// instead of added when `invert_phase` holds). A mono file is returned
/// as it is.
#[verifier::rlimit(40)]
pub fn mix_to_mono(format: &WavFormat, samples: &Vec<i16>, invert_phase: bool) -> (r: Result<
    (WavFormat, Vec<i16>),
    HousekeepError,
>)
    requires
        samples@.len() <= 0x7fff_ffff,
    ensures
        r is Ok <==> format.channels != 0,
        r is Err ==> r->Err_0 is InvalidFile,
        r is Ok && format.channels == 1 ==> r->Ok_0.0 == *format && r->Ok_0.1@ == samples@,
        r is Ok && format.channels > 1 ==> ({
            let out = mono_mix(samples@, format.channels as nat, invert_phase);
            &&& r->Ok_0.1@ == out
            &&& r->Ok_0.0 == (WavFormat {
                channels: 1,
                data_size: (2 * out.len()) as u32,
                ..*format
            })
        }),
{
    if format.channels == 0 {
        return Err(HousekeepError::InvalidFile(String::from_str("File has no channels")));
    }
    if format.channels == 1 {
        return Ok((*format, samples.clone()));
    }
    let c = format.channels as usize;
    let len = samples.len();
    let ghost want = mono_mix(samples@, c as nat, invert_phase);
    let mut out: Vec<i16> = Vec::new();
    let mut i: usize = 0;
    let mut k: usize = 0;
    while i < len
        invariant
            c >= 2,
            c == format.channels,
            len == samples@.len() <= 0x7fff_ffff,
            i == k * c,
            want == mono_mix(samples@, c as nat, invert_phase),
            k <= want.len(),
            out@ == want.subrange(0, k as int),
            i < len ==> k < want.len(),
            i >= len ==> k == want.len(),
        decreases len + c - i,
    {
        let mut sum: i64 = 0;
        let mut ch: usize = 0;
        let width = if len - i >= c {
            c
        } else {
            len - i
        };
        while ch < width
            invariant
                ch <= width,
                width == frame_width(len as nat, c as nat, i as int),
                i + width <= len,
                len == samples@.len(),
                c >= 2,
                sum == frame_sum(samples@, c as nat, i as int, ch as nat, invert_phase),
                -32768 * ch <= sum <= 32768 * ch,
                ch <= c <= 0xffff,
            decreases width - ch,
        {
            let v = samples[i + ch] as i64;
            if invert_phase && c == 2 && ch == 1 {
                sum = sum - v;
            } else {
                sum = sum + v;
            }
            ch += 1;
        }
        let avg: i64 = if sum >= 0 {
            sum / (c as i64)
        } else {
            -((-sum) / (c as i64))
        };
        let m: i16 = if avg < -32768 {
            -32768
        } else if avg > 32767 {
            32767
        } else {
            avg as i16
        };
        out.push(m);
        proof {
            let n = channel_len(len as nat, c as nat, 0);
            assert(n == (len - 1) as nat / (c as nat) + 1);
            if i + c < len {
                assert((k + 1) * c <= len - 1) by (nonlinear_arith)
                    requires
                        i == k * c,
                        i + c < len,
                ;
                assert(k + 1 <= (len - 1) as nat / (c as nat)) by (nonlinear_arith)
                    requires
                        (k + 1) * c <= len - 1,
                        c >= 2,
                ;
            } else {
                assert((len - 1) as nat / (c as nat) <= k) by (nonlinear_arith)
                    requires
                        i == k * c,
                        i + c >= len,
                        i < len,
                        c >= 2,
                ;
            }
            assert((k + 1) * c == k * c + c) by (nonlinear_arith);
            assert(want[k as int] == m);
        }
        assert(out@ =~= want.subrange(0, k + 1));
        i = i + c;
        k += 1;
    }
    assert(out@ =~= want);
    let n = out.len();
    Ok((WavFormat { channels: 1, data_size: (2 * n) as u32, ..*format }, out))
}

} // verus!
