//! The properties of a sound file: its format, its `PEAK` record and the
//! size of its sample data, read without reading the samples.
use vstd::prelude::*;
use crate::bytes::{read_u16, read_u32, u16_at, u32_at, DATA_ID, FMT_ID, PEAK_ID, RIFF_ID, WAVE_ID};
use crate::cli::SndinfoError;
use crate::wav::WavFormat;

verus! {

/// What the chunks read so far give: the format fields (channels, rate,
/// bits per sample), the `PEAK` value (an `f32` bit pattern) and position,
/// and the size of the sample data.
pub struct PropsState {
    pub format: Option<(u16, u32, u16)>,
    pub peak: Option<(u32, u32)>,
    pub data_size: u32,
}

/// Where the walk goes after the chunk at `pos`: past its body (a `PEAK`
/// chunk under 16 bytes is not passed over: the walk reads on from its
/// body), then past a pad byte for an odd size.
pub open spec fn props_next(s: Seq<u8>, pos: int) -> int {
    let id = u32_at(s, pos);
    let size = u32_at(s, pos + 4) as int;
    let body = pos + 8;
    let past = if id == PEAK_ID as nat && size < 16 {
        body
    } else {
        body + size
    };
    past + size % 2
}

/// The state after the chunk at `pos`: a `fmt ` chunk of at least 16
/// bytes sets the format, a `PEAK` chunk of at least 16 bytes the peak, a
/// `data` chunk the data size.
pub open spec fn props_update(s: Seq<u8>, pos: int, st: PropsState) -> PropsState {
    let id = u32_at(s, pos);
    let size = u32_at(s, pos + 4);
    let body = pos + 8;
    if id == FMT_ID as nat && size >= 16 {
        PropsState {
            format: Some(
                (
                    u16_at(s, body + 2) as u16,
                    u32_at(s, body + 4) as u32,
                    u16_at(s, body + 14) as u16,
                ),
            ),
            ..st
        }
    } else if id == PEAK_ID as nat && size >= 16 {
        PropsState { peak: Some((u32_at(s, body + 8) as u32, u32_at(s, body + 12) as u32)), ..st }
    } else if id == DATA_ID as nat {
        PropsState { data_size: size as u32, ..st }
    } else {
        st
    }
}

/// Whether the chunk at `pos` is cut short where the walk must read it:
/// the body of a `fmt ` chunk, or the first 16 bytes of a `PEAK` chunk.
pub open spec fn props_cut(s: Seq<u8>, pos: int) -> bool {
    let id = u32_at(s, pos);
    let size = u32_at(s, pos + 4) as int;
    let body = pos + 8;
    (id == FMT_ID as nat && body + size > s.len()) || (id == PEAK_ID as nat && size >= 16 && body
        + 16 > s.len())
}

/// Walks the chunks from `pos` on, to the end of the bytes; `None` when a
/// chunk is cut short.
pub open spec fn props_walk(s: Seq<u8>, pos: int, st: PropsState) -> Option<PropsState>
    decreases s.len() + 1 - pos,
{
    if pos < 0 || pos + 8 > s.len() {
        Some(st)
    } else if props_cut(s, pos) {
        None
    } else if props_next(s, pos) > s.len() {
        Some(props_update(s, pos, st))
    } else {
        props_walk(s, props_next(s, pos), props_update(s, pos, st))
    }
}

/// Nothing read yet.
pub open spec fn props_start() -> PropsState {
    PropsState { format: None, peak: None, data_size: 0 }
}

/// Reads the chunk at `pos`: `None` when it is cut short, else the new
/// state, whether the walk goes on within the bytes, and where.
#[verifier::rlimit(40)]
fn props_chunk(s: &[u8], pos: usize, st: PropsState) -> (r: Option<(bool, usize, PropsState)>)
    requires
        pos + 8 <= s@.len(),
    ensures
        r is None <==> props_cut(s@, pos as int),
        r is Some ==> ({
            let (go, next, st2) = r->Some_0;
            &&& st2 == props_update(s@, pos as int, st)
            &&& go <==> props_next(s@, pos as int) <= s@.len()
            &&& go ==> next == props_next(s@, pos as int) && pos < next
        }),
{
    let len = s.len();
    let id = read_u32(s, pos);
    let size = read_u32(s, pos + 4);
    let body = pos + 8;
    let rest = len - body;
    if (id == FMT_ID && size as u64 > rest as u64) || (id == PEAK_ID && size >= 16 && rest < 16) {
        return None;
    }
    let st2 = if id == FMT_ID && size >= 16 {
        PropsState {
            format: Some((read_u16(s, body + 2), read_u32(s, body + 4), read_u16(s, body + 14))),
            ..st
        }
    } else if id == PEAK_ID && size >= 16 {
        PropsState { peak: Some((read_u32(s, body + 8), read_u32(s, body + 12))), ..st }
    } else if id == DATA_ID {
        PropsState { data_size: size, ..st }
    } else {
        st
    };
    let past: u64 = if id == PEAK_ID && size < 16 {
        0
    } else {
        size as u64
    };
    let step = past + (size % 2) as u64;
    if step > rest as u64 {
        return Some((false, len, st2));
    }
    Some((true, body + step as usize, st2))
}

/// Walks the chunks from offset 12 on, as `props_walk` states.
#[verifier::rlimit(40)]
fn walk_props(s: &[u8]) -> (r: Option<PropsState>)
    requires
        s@.len() >= 12,
    ensures
        r == props_walk(s@, 12, props_start()),
{
    let len = s.len();
    let mut pos: usize = 12;
    let mut st = PropsState { format: None, peak: None, data_size: 0 };
    loop
        invariant
            len == s@.len(),
            pos <= len,
            props_walk(s@, 12, props_start()) == props_walk(s@, pos as int, st),
        decreases len - pos,
    {
        if len - pos < 8 {
            return Some(st);
        }
        match props_chunk(s, pos, st) {
            None => {
                return None;
            },
            Some((go, next, st2)) => {
                if !go {
                    return Some(st2);
                }
                st = st2;
                pos = next;
            },
        }
    }
}

/// Reads the properties of a sound file from its bytes: the format (with
/// the size of the sample data) and, when there is one, the `PEAK` value
/// (an `f32` bit pattern) and position. A file cut short gives `Io`; one
/// that is not RIFF/WAVE, or has no format, gives `InvalidFile`.
pub fn read_wav_with_metadata(s: &[u8]) -> (r: Result<(WavFormat, Option<(u32, u32)>), SndinfoError>)
    ensures
        s@.len() < 12 ==> r is Err && r->Err_0 is Io,
        s@.len() >= 12 && (u32_at(s@, 0) != RIFF_ID as nat || u32_at(s@, 8) != WAVE_ID as nat)
            ==> r is Err && r->Err_0 is InvalidFile,
        s@.len() >= 12 && u32_at(s@, 0) == RIFF_ID as nat && u32_at(s@, 8) == WAVE_ID as nat
            ==> match props_walk(s@, 12, props_start()) {
            None => r is Err && r->Err_0 is Io,
            Some(st) => match st.format {
                None => r is Err && r->Err_0 is InvalidFile,
                Some((c, sr, b)) => r is Ok && r->Ok_0 == (
                    WavFormat { channels: c, sample_rate: sr, bits_per_sample: b, data_size: st.data_size },
                    st.peak,
                ),
            },
        },
{
    let len = s.len();
    if len < 12 {
        return Err(SndinfoError::Io(String::from_str("failed to fill whole buffer")));
    }
    if read_u32(s, 0) != RIFF_ID || read_u32(s, 8) != WAVE_ID {
        return Err(SndinfoError::InvalidFile(String::from_str("Not a WAV file")));
    }
    match walk_props(s) {
        None => Err(SndinfoError::Io(String::from_str("failed to fill whole buffer"))),
        Some(st) => match st.format {
            None => Err(SndinfoError::InvalidFile(String::from_str("No format chunk found"))),
            Some((c, sr, b)) => Ok(
                (WavFormat { channels: c, sample_rate: sr, bits_per_sample: b, data_size: st.data_size }, st.peak),
            ),
        },
    }
}

/// Number of sample frames of a 16-bit file: the data size over two bytes
/// and over the channel count.
pub fn total_samples(format: &WavFormat) -> (r: u32)
    requires
        format.channels > 0,
    ensures
        r == format.data_size / 2 / (format.channels as u32),
{
    format.data_size / 2 / (format.channels as u32)
}

} // verus!
