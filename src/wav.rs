//! 16-bit PCM WAVE files: reading the format and samples, and writing
//! them back with the `PEAK`, `cue ` and `LIST` chunks that mark a
//! processed file.
use vstd::prelude::*;
use crate::bytes::{
    le16_bytes, le32_bytes, push_all, push_u16, push_u32, read_u16, read_u32, u16_at, u32_at,
    CUE_ID, DATA_ID, FMT_ID, LIST_ID, NOTE_ID, ADTL_ID, PEAK_ID, RIFF_ID, SFIF_ID, WAVE_ID,
};

verus! {

/// Errors of the sound-file operations.
#[derive(Debug, PartialEq, Eq)]
pub enum HousekeepError {
    /// A read or write failed, or the bytes are not a readable WAVE file.
    Io(String),
    /// An argument or the file is refused; the message says why.
    InvalidFile(String),
    /// The operation or mode is not provided.
    UnsupportedFormat(String),
}

/// Format of a PCM sound file.
#[derive(Debug, Clone, Copy, PartialEq, Eq)]
pub struct WavFormat {
    pub channels: u16,
    pub sample_rate: u32,
    pub bits_per_sample: u16,
    /// Size of the sample data in bytes.
    pub data_size: u32,
}

/// The `PEAK` chunk: the largest sample magnitude (an `f32` bit pattern)
/// and the index of the sample where it first occurs.
#[derive(Debug, Clone, Copy, PartialEq, Eq)]
pub struct PeakChunk {
    pub version: u32,
    pub timestamp: u32,
    pub peak_value: u32,
    pub peak_position: u32,
}

/// A cue point of the `cue ` chunk.
#[derive(Debug, Clone, Copy, PartialEq, Eq)]
pub struct CuePoint {
    pub id: u32,
    pub position: u32,
    pub data_chunk_id: u32,
    pub chunk_start: u32,
    pub block_start: u32,
    pub sample_offset: u32,
}

/// The `cue ` chunk: a single cue point.
#[derive(Debug, Clone, Copy, PartialEq, Eq)]
pub struct CueChunk {
    pub cue_point: CuePoint,
}

/// The text of the `note` in the `LIST`/`adtl` chunk.
#[derive(Debug, Clone, PartialEq, Eq)]
pub struct ListChunk {
    pub note_data: Vec<u8>,
}

/// The chunks written besides `fmt ` and `data`.
#[derive(Debug, Clone, PartialEq, Eq)]
pub struct CdpChunks {
    pub peak: PeakChunk,
    pub cue: CueChunk,
    pub list: ListChunk,
}

/// The sample stored at `at`, a little-endian two's-complement `i16`.
pub open spec fn i16_at(s: Seq<u8>, at: int) -> i16 {
    u16_at(s, at) as u16 as i16
}

/// The `n` samples stored from `at` on.
pub open spec fn samples_at(s: Seq<u8>, at: int, n: nat) -> Seq<i16> {
    Seq::new(n, |k: int| i16_at(s, at + 2 * k))
}

/// Walks the chunks of a PCM file from `pos` on, with the format found so
/// far, and gives the format and samples, or `None` when the file cannot
/// be read. A `fmt ` chunk (whole, at least 16 bytes) gives the format; the
/// first `data` chunk after a format gives `size / 2` samples and ends the
/// walk (a `data` chunk before any format is passed over, its body read as
/// further chunks); other chunks are skipped whole. Chunks of odd size are
/// followed by one pad byte. The walk ends without samples at the end of
/// the bytes.
pub open spec fn pcm_walk(s: Seq<u8>, pos: int, fmt: Option<WavFormat>) -> Option<(WavFormat, Seq<i16>)>
    decreases s.len() + 1 - pos,
{
    if pos < 0 || pos + 8 > s.len() {
        None
    } else {
        let id = u32_at(s, pos);
        let size = u32_at(s, pos + 4) as int;
        let body = pos + 8;
        if id == DATA_ID as nat && fmt is Some {
            let n = size / 2;
            if body + 2 * n > s.len() {
                None
            } else {
                Some(
                    (
                        WavFormat { data_size: size as u32, ..fmt->Some_0 },
                        samples_at(s, body, n as nat),
                    ),
                )
            }
        } else if id == DATA_ID as nat {
            pcm_walk(s, body + size % 2, fmt)
        } else if body + size > s.len() || (id == FMT_ID as nat && size < 16) {
            None
        } else if id == FMT_ID as nat {
            pcm_walk(
                s,
                body + size + size % 2,
                Some(
                    WavFormat {
                        channels: u16_at(s, body + 2) as u16,
                        sample_rate: u32_at(s, body + 4) as u32,
                        bits_per_sample: u16_at(s, body + 14) as u16,
                        data_size: 0,
                    },
                ),
            )
        } else {
            pcm_walk(s, body + size + size % 2, fmt)
        }
    }
}

/// What reading the bytes `s` as a PCM file gives: the format and at least
/// one sample, or `None`.
pub open spec fn pcm_read(s: Seq<u8>) -> Option<(WavFormat, Seq<i16>)> {
    if s.len() < 12 || u32_at(s, 0) != RIFF_ID as nat || u32_at(s, 8) != WAVE_ID as nat {
        None
    } else {
        match pcm_walk(s, 12, None) {
            Some((f, w)) => if w.len() > 0 {
                Some((f, w))
            } else {
                None
            },
            None => None,
        }
    }
}

/// Reads `n` samples stored from `at` on.
fn read_samples(s: &[u8], at: usize, n: usize) -> (r: Vec<i16>)
    requires
        at + 2 * n <= s@.len(),
    ensures
        r@ == samples_at(s@, at as int, n as nat),
{
    let len = s.len();
    let mut r: Vec<i16> = Vec::new();
    let mut k: usize = 0;
    while k < n
        invariant
            k <= n,
            len == s@.len(),
            at + 2 * n <= s@.len(),
            r@ == samples_at(s@, at as int, k as nat),
        decreases n - k,
    {
        let v = read_u16(s, at + 2 * k) as i16;
        r.push(v);
        k += 1;
        assert(r@ =~= samples_at(s@, at as int, k as nat));
    }
    r
}

fn not_readable() -> (e: HousekeepError)
    ensures
        e is Io,
{
    HousekeepError::Io(String::from_str("Missing fmt or data chunk"))
}

/// Passes over the chunk at `pos`, which is not a `data` chunk that ends
/// the walk: gives where the walk goes on and with which format, or `None`
/// when the walk fails here.
#[verifier::rlimit(40)]
fn pass_chunk(s: &[u8], pos: usize, fmt: Option<WavFormat>) -> (r: Option<(usize, Option<WavFormat>)>)
    requires
        pos + 8 <= s@.len(),
        u32_at(s@, pos as int) != DATA_ID as nat || fmt is None,
    ensures
        r is None ==> pcm_walk(s@, pos as int, fmt) is None,
        r is Some ==> pos < r->Some_0.0 <= s@.len() && pcm_walk(s@, pos as int, fmt) == pcm_walk(
            s@,
            r->Some_0.0 as int,
            r->Some_0.1,
        ),
{
    let len = s.len();
    let id = read_u32(s, pos);
    let size = read_u32(s, pos + 4);
    let body = pos + 8;
    let rest = len - body;
    if id == DATA_ID {
        if size % 2 == 1 && rest == 0 {
            assert(pcm_walk(s@, (body + 1) as int, fmt) is None);
            return None;
        }
        return Some((body + (size % 2) as usize, fmt));
    }
    if size as u64 > rest as u64 || (id == FMT_ID && size < 16) {
        return None;
    }
    let next_fmt = if id == FMT_ID {
        Some(
            WavFormat {
                channels: read_u16(s, body + 2),
                sample_rate: read_u32(s, body + 4),
                bits_per_sample: read_u16(s, body + 14),
                data_size: 0,
            },
        )
    } else {
        fmt
    };
    if size as u64 + (size % 2) as u64 > rest as u64 {
        assert(pcm_walk(s@, (body + size + size % 2) as int, next_fmt) is None);
        return None;
    }
    Some((body + size as usize + (size % 2) as usize, next_fmt))
}

/// Reads a PCM file (simple or with extra chunks) from its bytes: the
/// format, with `data_size` set from the `data` chunk, and the samples.
pub fn read_wav(s: &[u8]) -> (r: Result<(WavFormat, Vec<i16>), HousekeepError>)
    ensures
        match pcm_read(s@) {
            Some((f, w)) => r is Ok && r->Ok_0.0 == f && r->Ok_0.1@ == w,
            None => r is Err && r->Err_0 is Io,
        },
{
    let len = s.len();
    if len < 12 || read_u32(s, 0) != RIFF_ID || read_u32(s, 8) != WAVE_ID {
        return Err(HousekeepError::Io(String::from_str("Not a WAV file")));
    }
    let mut pos: usize = 12;
    let mut fmt: Option<WavFormat> = None;
    loop
        invariant
            len == s@.len(),
            12 <= pos <= len,
            pcm_read(s@) == (match pcm_walk(s@, pos as int, fmt) {
                Some((f, w)) => if w.len() > 0 {
                    Some((f, w))
                } else {
                    None
                },
                None => None,
            }),
        decreases len - pos,
    {
        if len - pos < 8 {
            return Err(not_readable());
        }
        if read_u32(s, pos) == DATA_ID {
            match fmt {
                Some(f) => {
                    let size = read_u32(s, pos + 4);
                    let n = (size / 2) as usize;
                    if n > (len - pos - 8) / 2 || n == 0 {
                        return Err(not_readable());
                    }
                    let w = read_samples(s, pos + 8, n);
                    return Ok((WavFormat { data_size: size, ..f }, w));
                },
                None => {},
            }
        }
        match pass_chunk(s, pos, fmt) {
            None => {
                return Err(not_readable());
            },
            Some((p, f)) => {
                pos = p;
                fmt = f;
            },
        }
    }
}

/// The magnitude of a sample, `|v|` (32768 for -32768).
pub open spec fn mag(v: i16) -> nat {
    if v < 0 {
        (-(v as int)) as nat
    } else {
        v as nat
    }
}

/// Finds the largest sample magnitude and the index of its first
/// occurrence ((0, 0) when every sample is zero).
pub fn calculate_peak(samples: &[i16]) -> (r: (u16, u32))
    requires
        samples@.len() <= u32::MAX,
    ensures
        forall|i: int| 0 <= i < samples@.len() ==> mag(#[trigger] samples@[i]) <= r.0,
        r.0 == 0 ==> r.1 == 0,
        r.0 > 0 ==> r.1 < samples@.len() && mag(samples@[r.1 as int]) == r.0 && forall|i: int|
            0 <= i < r.1 ==> mag(#[trigger] samples@[i]) < r.0,
{
    let mut best: u16 = 0;
    let mut pos: u32 = 0;
    let mut i: usize = 0;
    while i < samples.len()
        invariant
            i <= samples@.len() <= u32::MAX,
            forall|j: int| 0 <= j < i ==> mag(#[trigger] samples@[j]) <= best,
            best == 0 ==> pos == 0,
            best > 0 ==> pos < i && mag(samples@[pos as int]) == best && forall|j: int|
                0 <= j < pos ==> mag(#[trigger] samples@[j]) < best,
        decreases samples@.len() - i,
    {
        let v = samples[i];
        let m: u16 = if v < 0 {
            (-(v as i32)) as u16
        } else {
            v as u16
        };
        if m > best {
            best = m;
            pos = i as u32;
        }
        i += 1;
    }
    (best, pos)
}

/// The uppercase hexadecimal digits of `n`, most significant first.
pub open spec fn hex(n: nat) -> Seq<u8>
    decreases n,
{
    let d = n % 16;
    let c = if d < 10 {
        (48 + d) as u8
    } else {
        (55 + d) as u8
    };
    if n < 16 {
        seq![c]
    } else {
        hex(n / 16).push(c)
    }
}

/// Appends the uppercase hexadecimal digits of `n`.
pub fn push_hex(out: &mut Vec<u8>, n: u64)
    ensures
        final(out)@ == old(out)@ + hex(n as nat),
    decreases n,
{
    if n >= 16 {
        push_hex(out, n / 16);
    }
    let d = (n % 16) as u8;
    let c = if d < 10 {
        48 + d
    } else {
        55 + d
    };
    out.push(c);
    assert(final(out)@ =~= old(out)@ + hex(n as nat));
}

/// Length of the note text.
pub const NOTE_LEN: usize = 2004;

/// `sfifDATE` and a line end.
pub open spec fn note_head() -> Seq<u8> {
    seq![115u8, 102, 105, 102, 68, 65, 84, 69, 10]
}

/// The note text written with time stamp `t`: `sfifDATE`, a line end, the
/// stamp in uppercase hexadecimal, a line end, then line ends up to 2004
/// bytes.
pub open spec fn note_text(t: nat) -> Seq<u8> {
    let head = note_head() + hex(t) + seq![10u8];
    head + Seq::new((NOTE_LEN - head.len()) as nat, |i: int| 10u8)
}

pub proof fn lemma_hex_len(n: nat)
    ensures
        1 <= hex(n).len(),
        n < 0x1_0000_0000_0000_0000 ==> hex(n).len() <= 16,
    decreases n,
{
    if n >= 16 {
        lemma_hex_len(n / 16);
        if n < 0x1_0000_0000_0000_0000 {
            assert(pow16(16) == 0x1_0000_0000_0000_0000) by {
                reveal_with_fuel(pow16, 17);
            }
            lemma_hex_len_below(n, 16);
        }
    }
}

proof fn lemma_hex_len_below(n: nat, k: nat)
    requires
        k >= 1,
        n < pow16(k),
    ensures
        hex(n).len() <= k,
    decreases n,
{
    if n >= 16 {
        let k1 = (k - 1) as nat;
        if k1 == 0 {
            assert(pow16(1) == 16 * pow16(0));
        }
        assert(n / 16 < pow16(k1)) by (nonlinear_arith)
            requires
                n < 16 * pow16(k1),
        ;
        lemma_hex_len_below(n / 16, k1);
    }
}

/// `16` to the power `k`.
pub open spec fn pow16(k: nat) -> nat
    decreases k,
{
    if k == 0 {
        1
    } else {
        16 * pow16((k - 1) as nat)
    }
}

/// The note text with time stamp `timestamp`.
#[verifier::rlimit(40)]
pub fn create_note_data(timestamp: u64) -> (r: Vec<u8>)
    ensures
        r@ == note_text(timestamp as nat),
        r@.len() == NOTE_LEN,
{
    let head: [u8; 9] = [115, 102, 105, 102, 68, 65, 84, 69, 10];
    assert(head@ =~= note_head());
    let mut r: Vec<u8> = Vec::new();
    push_all(&mut r, head.as_slice());
    push_hex(&mut r, timestamp);
    r.push(10);
    proof {
        lemma_hex_len(timestamp as nat);
    }
    let ghost h = r@;
    assert(h =~= note_head() + hex(timestamp as nat) + seq![10u8]);
    while r.len() < NOTE_LEN
        invariant
            h.len() <= r@.len() <= NOTE_LEN,
            r@.subrange(0, h.len() as int) == h,
            forall|i: int| h.len() <= i < r@.len() ==> r@[i] == 10u8,
        decreases NOTE_LEN - r@.len(),
    {
        r.push(10);
    }
    assert(r@ =~= note_text(timestamp as nat));
    r
}

/// The chunks written with a file whose largest sample magnitude is
/// `peak_value` (an `f32` bit pattern) at `peak_position`, at time stamp
/// `timestamp`.
pub fn create_cdp_chunks(peak_value: u32, peak_position: u32, timestamp: u32) -> (r: CdpChunks)
    ensures
        r.peak == (PeakChunk { version: 1, timestamp, peak_value, peak_position }),
        r.cue.cue_point == (CuePoint {
            id: SFIF_ID,
            position: 0,
            data_chunk_id: DATA_ID,
            chunk_start: 0,
            block_start: 0,
            sample_offset: 0,
        }),
        r.list.note_data@ == note_text(timestamp as nat),
{
    CdpChunks {
        peak: PeakChunk { version: 1, timestamp, peak_value, peak_position },
        cue: CueChunk {
            cue_point: CuePoint {
                id: SFIF_ID,
                position: 0,
                data_chunk_id: DATA_ID,
                chunk_start: 0,
                block_start: 0,
                sample_offset: 0,
            },
        },
        list: ListChunk { note_data: create_note_data(timestamp as u64) },
    }
}

/// The little-endian bytes of a sequence of samples, in order.
pub open spec fn samples_bytes(w: Seq<i16>) -> Seq<u8>
    decreases w.len(),
{
    if w.len() == 0 {
        Seq::empty()
    } else {
        samples_bytes(w.drop_last()) + le16_bytes(w.last() as u16)
    }
}

/// The `fmt ` chunk of a 16-bit PCM file of format `f`.
pub open spec fn pcm_fmt_chunk(f: WavFormat) -> Seq<u8> {
    let byte_rate = ((f.sample_rate as nat * f.channels as nat * 2) % 0x1_0000_0000) as u32;
    let block_align = ((f.channels as nat * 2) % 0x1_0000) as u16;
    le32_bytes(FMT_ID) + le32_bytes(16) + le16_bytes(1) + le16_bytes(f.channels) + le32_bytes(
        f.sample_rate,
    ) + le32_bytes(byte_rate) + le16_bytes(block_align) + le16_bytes(f.bits_per_sample)
}

/// The `PEAK` chunk.
pub open spec fn peak_chunk(p: PeakChunk) -> Seq<u8> {
    le32_bytes(PEAK_ID) + le32_bytes(16) + le32_bytes(p.version) + le32_bytes(p.timestamp)
        + le32_bytes(p.peak_value) + le32_bytes(p.peak_position)
}

/// The `cue ` chunk with one cue point.
pub open spec fn cue_chunk(c: CuePoint) -> Seq<u8> {
    le32_bytes(CUE_ID) + le32_bytes(28) + le32_bytes(1) + le32_bytes(c.id) + le32_bytes(c.position)
        + le32_bytes(c.data_chunk_id) + le32_bytes(c.chunk_start) + le32_bytes(c.block_start)
        + le32_bytes(c.sample_offset)
}

/// The `LIST`/`adtl` chunk with one `note`; its size field leaves out
/// the pad byte.
pub open spec fn note_chunk(note: Seq<u8>) -> Seq<u8> {
    le32_bytes(LIST_ID) + le32_bytes((12 + note.len()) as u32) + le32_bytes(ADTL_ID) + le32_bytes(
        NOTE_ID,
    ) + le32_bytes(note.len() as u32) + note + (if note.len() % 2 == 1 {
        seq![0u8]
    } else {
        Seq::empty()
    })
}

/// The `data` chunk holding the samples `w`.
pub open spec fn pcm_data_chunk(w: Seq<i16>) -> Seq<u8> {
    le32_bytes(DATA_ID) + le32_bytes((2 * w.len()) as u32) + samples_bytes(w)
}

/// The complete bytes of a PCM file with format `f`, samples `w` and the
/// chunks `c` (note text `note`).
#[verifier::opaque]
pub open spec fn cdp_wav_bytes(f: WavFormat, w: Seq<i16>, c: CdpChunks, note: Seq<u8>) -> Seq<u8> {
    let riff_size = 4 + 24 + 24 + 36 + 8 + 12 + note.len() + note.len() % 2 + 8 + 2 * w.len();
    le32_bytes(RIFF_ID) + le32_bytes(riff_size as u32) + le32_bytes(WAVE_ID) + pcm_fmt_chunk(f)
        + peak_chunk(c.peak) + cue_chunk(c.cue.cue_point) + note_chunk(note) + pcm_data_chunk(w)
}

/// Largest number of samples a written file can hold here.
pub const MAX_SAMPLES: usize = 0x6000_0000;

fn push_pcm_fmt_chunk(out: &mut Vec<u8>, f: &WavFormat)
    ensures
        final(out)@ == old(out)@ + pcm_fmt_chunk(*f),
{
    let sr = f.sample_rate as u64;
    let ch = f.channels as u64;
    assert(sr * ch <= 0xffff_ffff * 0xffff) by (nonlinear_arith)
        requires
            sr <= 0xffff_ffff,
            ch <= 0xffff,
    ;
    let byte_rate = ((sr * ch * 2) % 0x1_0000_0000) as u32;
    let block_align = (f.channels as u32 * 2 % 0x1_0000) as u16;
    let ghost start = out@;
    push_u32(out, FMT_ID);
    push_u32(out, 16);
    push_u16(out, 1);
    push_u16(out, f.channels);
    push_u32(out, f.sample_rate);
    push_u32(out, byte_rate);
    push_u16(out, block_align);
    push_u16(out, f.bits_per_sample);
    assert(out@ =~= start + pcm_fmt_chunk(*f));
}

fn push_marker_chunks(out: &mut Vec<u8>, c: &CdpChunks)
    ensures
        final(out)@ == old(out)@ + peak_chunk(c.peak) + cue_chunk(c.cue.cue_point),
{
    let ghost start = out@;
    push_u32(out, PEAK_ID);
    push_u32(out, 16);
    push_u32(out, c.peak.version);
    push_u32(out, c.peak.timestamp);
    push_u32(out, c.peak.peak_value);
    push_u32(out, c.peak.peak_position);
    assert(out@ =~= start + peak_chunk(c.peak));
    let ghost mid = out@;
    let p = c.cue.cue_point;
    push_u32(out, CUE_ID);
    push_u32(out, 28);
    push_u32(out, 1);
    push_u32(out, p.id);
    push_u32(out, p.position);
    push_u32(out, p.data_chunk_id);
    push_u32(out, p.chunk_start);
    push_u32(out, p.block_start);
    push_u32(out, p.sample_offset);
    assert(out@ =~= mid + cue_chunk(p));
}

fn push_note_chunk(out: &mut Vec<u8>, note: &Vec<u8>)
    requires
        note@.len() <= 0x1000_0000,
    ensures
        final(out)@ == old(out)@ + note_chunk(note@),
{
    let n = note.len() as u32;
    let ghost start = out@;
    push_u32(out, LIST_ID);
    push_u32(out, 12 + n);
    push_u32(out, ADTL_ID);
    push_u32(out, NOTE_ID);
    push_u32(out, n);
    push_all(out, note.as_slice());
    let ghost before = out@;
    if n % 2 == 1 {
        out.push(0);
    }
    assert(out@ =~= start + note_chunk(note@));
}

fn push_pcm_data_chunk(out: &mut Vec<u8>, w: &[i16])
    requires
        w@.len() <= MAX_SAMPLES,
    ensures
        final(out)@ == old(out)@ + pcm_data_chunk(w@),
{
    let ghost start = out@;
    push_u32(out, DATA_ID);
    push_u32(out, 2 * (w.len() as u32));
    let ghost head = out@;
    let mut i: usize = 0;
    while i < w.len()
        invariant
            i <= w@.len(),
            out@ == head + samples_bytes(w@.subrange(0, i as int)),
        decreases w@.len() - i,
    {
        push_u16(out, w[i] as u16);
        i += 1;
        assert(w@.subrange(0, i as int).drop_last() =~= w@.subrange(0, i as int - 1));
        assert(out@ =~= head + samples_bytes(w@.subrange(0, i as int)));
    }
    assert(w@.subrange(0, i as int) =~= w@);
    assert(out@ =~= start + pcm_data_chunk(w@));
}

/// Writes a PCM file: format `format`, the chunks `chunks`, then the
/// samples.
#[verifier::rlimit(40)]
pub fn write_wav_cdp(format: &WavFormat, samples: &[i16], chunks: &CdpChunks) -> (r: Vec<u8>)
    requires
        samples@.len() <= MAX_SAMPLES,
        chunks.list.note_data@.len() <= 0x1000_0000,
    ensures
        r@ == cdp_wav_bytes(*format, samples@, *chunks, chunks.list.note_data@),
{
    let n = chunks.list.note_data.len() as u32;
    let riff_size: u32 = 4 + 24 + 24 + 36 + 8 + 12 + n + n % 2 + 8 + 2 * (samples.len() as u32);
    let mut out: Vec<u8> = Vec::new();
    push_u32(&mut out, RIFF_ID);
    assert(out@ =~= le32_bytes(RIFF_ID));
    push_u32(&mut out, riff_size);
    push_u32(&mut out, WAVE_ID);
    push_pcm_fmt_chunk(&mut out, format);
    push_marker_chunks(&mut out, chunks);
    push_note_chunk(&mut out, &chunks.list.note_data);
    push_pcm_data_chunk(&mut out, samples);
    proof {
        reveal(cdp_wav_bytes);
    }
    out
}

/// A sound read for copying, with the peak its marker chunk records.
#[derive(Debug, Clone, PartialEq, Eq)]
pub struct CopySource {
    pub format: WavFormat,
    pub samples: Vec<i16>,
    /// The largest sample magnitude.
    pub peak: u16,
    /// Index of the first sample of that magnitude.
    pub peak_position: u32,
}

/// Reads the sound of a copy of mode `mode`: only mode 1 (copy with
/// marker chunks) is provided. Gives the format, the samples and their
/// peak, from which the caller writes the copy.
pub fn copy_file(input: &[u8], mode: i32) -> (r: Result<CopySource, HousekeepError>)
    ensures
        mode != 1 ==> r is Err && r->Err_0 is UnsupportedFormat,
        mode == 1 ==> match pcm_read(input@) {
            None => r is Err && r->Err_0 is Io,
            Some((f, w)) => r is Ok <==> w.len() <= u32::MAX,
        },
        r is Ok ==> mode == 1 && pcm_read(input@) == Some((r->Ok_0.format, r->Ok_0.samples@)) && ({
            let c = r->Ok_0;
            &&& forall|i: int| 0 <= i < c.samples@.len() ==> mag(#[trigger] c.samples@[i]) <= c.peak
            &&& c.peak == 0 ==> c.peak_position == 0
            &&& c.peak > 0 ==> c.peak_position < c.samples@.len() && mag(
                c.samples@[c.peak_position as int],
            ) == c.peak && forall|i: int|
                0 <= i < c.peak_position ==> mag(#[trigger] c.samples@[i]) < c.peak
        }),
        mode == 1 && r is Err ==> r->Err_0 is Io,
{
    if mode != 1 {
        return Err(HousekeepError::UnsupportedFormat(String::from_str("Mode not provided")));
    }
    let (format, samples) = read_wav(input)?;
    if samples.len() > 0xffff_ffff {
        return Err(HousekeepError::Io(String::from_str("File too large")));
    }
    let (peak, peak_position) = calculate_peak(samples.as_slice());
    Ok(CopySource { format, samples, peak, peak_position })
}

/// Reads the sound of a copy with marker chunks (`copy_file` in mode 1).
pub fn copy(input: &[u8]) -> (r: Result<CopySource, HousekeepError>)
    ensures
        match pcm_read(input@) {
            None => r is Err,
            Some((f, w)) => r is Ok <==> w.len() <= u32::MAX,
        },
        r is Err ==> r->Err_0 is Io,
        r is Ok ==> pcm_read(input@) == Some((r->Ok_0.format, r->Ok_0.samples@)),
{
    copy_file(input, 1)
}

} // verus!
