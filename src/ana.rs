//! The `.ana` spectral container: a RIFF/WAVE file whose `fmt ` chunk
//! declares 32-bit IEEE float samples, whose `LIST`/`adtl` chunk carries
//! `key: value` text lines (window length, overlap factor, rates), and
//! whose `data` chunk holds the frames, frame after frame, as `f32` bit
//! patterns.
use vstd::prelude::*;
use crate::bytes::{
    le16_bytes, le32_bytes, push_all, push_u16, push_u32, push_words, read_u16, read_u32,
    read_words, u16_at, u32_at, words_at, words_bytes, ADTL_ID, DATA_ID, FMT_ID, LIST_ID, NOTE_ID,
    RIFF_ID, WAVE_ID,
};
use crate::text::{
    dec, fixed5, parse_u32, parse_u32_spec, push_dec, push_fixed5,
};

verus! {

/// Errors of the spectral transforms and of the `.ana` codec.
#[derive(Debug, PartialEq, Eq)]
pub enum SpectralError {
    /// An input or parameter is refused; the message says why.
    InvalidInput(String),
    /// A read or write failed; the message says why.
    Io(String),
    /// A transform primitive failed.
    Core(crate::fft::CoreError),
}

/// Header of a spectral file.
#[derive(Debug, Clone, Copy, PartialEq, Eq)]
pub struct AnaHeader {
    /// Sample rate of the analysed sound.
    pub sample_rate: u32,
    /// Values per frame: `(window_len / 2 + 1) * 2`.
    pub channels: u16,
    /// Transform length of the analysis.
    pub window_len: u32,
    /// Overlap factor: the hop is `window_len / dec_factor`.
    pub dec_factor: u32,
}

/// Why a byte sequence is not a readable spectral file.
#[derive(Debug, Clone, Copy, PartialEq, Eq)]
pub enum ReadFault {
    /// The bytes end inside a structure they announce.
    Truncated,
    /// A structure holds what the format does not allow.
    Invalid,
}

/// `analwinlen: `
pub open spec fn key_window_len() -> Seq<u8> {
    seq![97u8, 110, 97, 108, 119, 105, 110, 108, 101, 110, 58, 32]
}

/// `decfactor: `
pub open spec fn key_dec_factor() -> Seq<u8> {
    seq![100u8, 101, 99, 102, 97, 99, 116, 111, 114, 58, 32]
}

/// `original sampsize: 16`
pub open spec fn text_sampsize() -> Seq<u8> {
    seq![
        111u8, 114, 105, 103, 105, 110, 97, 108, 32, 115, 97, 109, 112, 115, 105,
        122, 101, 58, 32, 49, 54,
    ]
}

/// `original sample rate: `
pub open spec fn key_sample_rate() -> Seq<u8> {
    seq![
        111u8, 114, 105, 103, 105, 110, 97, 108, 32, 115, 97, 109, 112, 108, 101,
        32, 114, 97, 116, 101, 58, 32,
    ]
}

/// `arate: `
pub open spec fn key_arate() -> Seq<u8> {
    seq![97u8, 114, 97, 116, 101, 58, 32]
}

/// `origrate: `
pub open spec fn key_origrate() -> Seq<u8> {
    seq![111u8, 114, 105, 103, 114, 97, 116, 101, 58, 32]
}

/// `DATE: CDP Phase Vocoder Analysis`
pub open spec fn text_date() -> Seq<u8> {
    seq![
        68u8, 65, 84, 69, 58, 32, 67, 68, 80, 32, 80, 104, 97, 115, 101,
        32, 86, 111, 99, 111, 100, 101, 114, 32, 65, 110, 97, 108, 121, 115,
        105, 115,
    ]
}

/// Line `k` of the metadata text of `h`, without its line feed: the
/// sample size, the sample rate, the analysis rate (to five decimals),
/// the window length, the overlap factor, the rate again, and the date.
pub open spec fn meta_line(h: AnaHeader, k: int) -> Seq<u8> {
    if k == 0 {
        text_sampsize()
    } else if k == 1 {
        key_sample_rate() + dec(h.sample_rate as nat)
    } else if k == 2 {
        key_arate() + fixed5(h.sample_rate as nat, (h.window_len / h.dec_factor) as nat)
    } else if k == 3 {
        key_window_len() + dec(h.window_len as nat)
    } else if k == 4 {
        key_dec_factor() + dec(h.dec_factor as nat)
    } else if k == 5 {
        key_origrate() + dec(h.sample_rate as nat)
    } else {
        text_date()
    }
}

/// Lines `0..=k` of the metadata text, each with its line feed.
pub open spec fn meta_prefix(h: AnaHeader, k: nat) -> Seq<u8>
    decreases k,
{
    if k == 0 {
        meta_line(h, 0) + seq![10u8]
    } else {
        meta_prefix(h, (k - 1) as nat) + meta_line(h, k as int) + seq![10u8]
    }
}

/// The metadata text of a spectral file: its seven lines.
pub open spec fn ana_metadata(h: AnaHeader) -> Seq<u8> {
    meta_prefix(h, 6)
}

/// The zero byte that pads a chunk of odd length.
pub open spec fn pad(len: nat) -> Seq<u8> {
    if len % 2 == 1 {
        seq![0u8]
    } else {
        Seq::empty()
    }
}

/// The `fmt ` chunk of a spectral file: 32-bit IEEE float samples.
pub open spec fn fmt_chunk(h: AnaHeader) -> Seq<u8> {
    let byte_rate = ((h.sample_rate as nat * h.channels as nat * 4) % 0x1_0000_0000) as u32;
    let block_align = ((h.channels as nat * 4) % 0x1_0000) as u16;
    le32_bytes(FMT_ID) + le32_bytes(16) + le16_bytes(3) + le16_bytes(h.channels) + le32_bytes(
        h.sample_rate,
    ) + le32_bytes(byte_rate) + le16_bytes(block_align) + le16_bytes(32)
}

/// Size field of the `LIST` chunk that carries `text`.
pub open spec fn list_size(text: Seq<u8>) -> nat {
    12 + text.len() + text.len() % 2
}

/// The `LIST`/`adtl` chunk that carries `text` in one `note`.
pub open spec fn list_chunk(text: Seq<u8>) -> Seq<u8> {
    le32_bytes(LIST_ID) + le32_bytes(list_size(text) as u32) + le32_bytes(ADTL_ID) + le32_bytes(
        NOTE_ID,
    ) + le32_bytes(text.len() as u32) + text + pad(text.len())
}

/// The `data` chunk holding the values `w`.
pub open spec fn data_chunk(w: Seq<u32>) -> Seq<u8> {
    le32_bytes(DATA_ID) + le32_bytes((4 * w.len()) as u32) + words_bytes(w)
}

/// The complete bytes of a spectral file with header `h` and flat frame
/// values `w`.
pub open spec fn ana_bytes(h: AnaHeader, w: Seq<u32>) -> Seq<u8> {
    let text = ana_metadata(h);
    let riff_size = 4 + 24 + 8 + list_size(text) + 8 + 4 * w.len();
    le32_bytes(RIFF_ID) + le32_bytes(riff_size as u32) + le32_bytes(WAVE_ID) + fmt_chunk(h)
        + list_chunk(text) + data_chunk(w)
}

/// Whether a header can be written: its hop is at least one sample.
pub open spec fn header_writable(h: AnaHeader) -> bool {
    h.dec_factor > 0 && h.window_len / h.dec_factor > 0
}

/// Largest number of frame values a spectral file can hold here.
pub const MAX_VALUES: usize = 0x3fff_0000;

/// The metadata text of `h`.
#[verifier::rlimit(40)]
fn metadata_text(h: &AnaHeader) -> (out: Vec<u8>)
    requires
        header_writable(*h),
    ensures
        out@ == ana_metadata(*h),
{
    let l1: [u8; 21] = [
        111, 114, 105, 103, 105, 110, 97, 108, 32, 115, 97, 109, 112, 115, 105,
        122, 101, 58, 32, 49, 54,
    ];
    let k2: [u8; 22] = [
        111, 114, 105, 103, 105, 110, 97, 108, 32, 115, 97, 109, 112, 108, 101,
        32, 114, 97, 116, 101, 58, 32,
    ];
    let k3: [u8; 7] = [97, 114, 97, 116, 101, 58, 32];
    let k4: [u8; 12] = [97, 110, 97, 108, 119, 105, 110, 108, 101, 110, 58, 32];
    let k5: [u8; 11] = [100, 101, 99, 102, 97, 99, 116, 111, 114, 58, 32];
    let k6: [u8; 10] = [111, 114, 105, 103, 114, 97, 116, 101, 58, 32];
    let l7: [u8; 32] = [
        68, 65, 84, 69, 58, 32, 67, 68, 80, 32, 80, 104, 97, 115, 101,
        32, 86, 111, 99, 111, 100, 101, 114, 32, 65, 110, 97, 108, 121, 115,
        105, 115,
    ];
    assert(l1@ =~= text_sampsize());
    assert(k2@ =~= key_sample_rate());
    assert(k3@ =~= key_arate());
    assert(k4@ =~= key_window_len());
    assert(k5@ =~= key_dec_factor());
    assert(k6@ =~= key_origrate());
    assert(l7@ =~= text_date());
    let mut text: Vec<u8> = Vec::new();
    let out = &mut text;
    push_all(out, l1.as_slice());
    out.push(10u8);
    assert(out@ =~= meta_prefix(*h, 0));
    assert(out@ == meta_prefix(*h, 0));
    let ghost p = out@;
    push_all(out, k2.as_slice());
    push_dec(out, h.sample_rate as u64);
    out.push(10u8);
    assert(out@ =~= p + meta_line(*h, 1) + seq![10u8]);
    assert(out@ == meta_prefix(*h, 1));
    let ghost p = out@;
    push_all(out, k3.as_slice());
    push_fixed5(out, h.sample_rate, h.window_len / h.dec_factor);
    out.push(10u8);
    assert(out@ =~= p + meta_line(*h, 2) + seq![10u8]);
    assert(out@ == meta_prefix(*h, 2));
    let ghost p = out@;
    push_all(out, k4.as_slice());
    push_dec(out, h.window_len as u64);
    out.push(10u8);
    assert(out@ =~= p + meta_line(*h, 3) + seq![10u8]);
    assert(out@ == meta_prefix(*h, 3));
    let ghost p = out@;
    push_all(out, k5.as_slice());
    push_dec(out, h.dec_factor as u64);
    out.push(10u8);
    assert(out@ =~= p + meta_line(*h, 4) + seq![10u8]);
    assert(out@ == meta_prefix(*h, 4));
    let ghost p = out@;
    push_all(out, k6.as_slice());
    push_dec(out, h.sample_rate as u64);
    out.push(10u8);
    assert(out@ =~= p + meta_line(*h, 5) + seq![10u8]);
    assert(out@ == meta_prefix(*h, 5));
    let ghost p = out@;
    push_all(out, l7.as_slice());
    out.push(10u8);
    assert(out@ =~= p + meta_line(*h, 6) + seq![10u8]);
    assert(out@ == meta_prefix(*h, 6));
    text
}

/// Appends the `fmt ` chunk of `h`.
fn push_fmt_chunk(out: &mut Vec<u8>, h: &AnaHeader)
    ensures
        final(out)@ == old(out)@ + fmt_chunk(*h),
{
    let sr = h.sample_rate as u64;
    let ch = h.channels as u64;
    assert(sr * ch <= 0xffff_ffff * 0xffff) by (nonlinear_arith)
        requires
            sr <= 0xffff_ffff,
            ch <= 0xffff,
    ;
    let byte_rate = ((sr * ch * 4) % 0x1_0000_0000) as u32;
    let block_align = (h.channels as u32 * 4 % 0x1_0000) as u16;
    let ghost start = out@;
    push_u32(out, FMT_ID);
    push_u32(out, 16);
    push_u16(out, 3);
    push_u16(out, h.channels);
    push_u32(out, h.sample_rate);
    push_u32(out, byte_rate);
    push_u16(out, block_align);
    push_u16(out, 32);
    assert(out@ =~= start + fmt_chunk(*h));
}

/// Appends the `LIST` chunk that carries `text`.
fn push_list_chunk(out: &mut Vec<u8>, text: &Vec<u8>)
    requires
        text@.len() <= 1000,
    ensures
        final(out)@ == old(out)@ + list_chunk(text@),
{
    let tlen = text.len() as u32;
    let ghost start = out@;
    push_u32(out, LIST_ID);
    push_u32(out, 12 + tlen + tlen % 2);
    push_u32(out, ADTL_ID);
    push_u32(out, NOTE_ID);
    push_u32(out, tlen);
    push_all(out, text.as_slice());
    let ghost before = out@;
    if tlen % 2 == 1 {
        out.push(0);
    }
    assert(out@ =~= before + pad(text@.len()));
    assert(out@ =~= start + list_chunk(text@));
}

/// Appends the `data` chunk holding `w`.
fn push_data_chunk(out: &mut Vec<u8>, w: &[u32])
    requires
        w@.len() <= MAX_VALUES,
    ensures
        final(out)@ == old(out)@ + data_chunk(w@),
{
    let ghost start = out@;
    push_u32(out, DATA_ID);
    push_u32(out, 4 * (w.len() as u32));
    push_words(out, w);
    assert(out@ =~= start + data_chunk(w@));
}

/// Writes a spectral file: header `h`, then the flat frame values `w`
/// (`f32` bit patterns), frame after frame.
#[verifier::rlimit(40)]
pub fn encode_ana(h: &AnaHeader, w: &[u32]) -> (r: Vec<u8>)
    requires
        header_writable(*h),
        w@.len() <= MAX_VALUES,
    ensures
        r@ == ana_bytes(*h, w@),
{
    let text = metadata_text(h);
    proof {
        crate::ana_laws::lemma_metadata_len(*h);
    }
    let tlen = text.len() as u32;
    let riff_size: u32 = 4 + 24 + 8 + (12 + tlen + tlen % 2) + 8 + 4 * (w.len() as u32);
    let mut out: Vec<u8> = Vec::new();
    push_u32(&mut out, RIFF_ID);
    assert(out@ =~= le32_bytes(RIFF_ID));
    push_u32(&mut out, riff_size);
    push_u32(&mut out, WAVE_ID);
    push_fmt_chunk(&mut out, h);
    push_list_chunk(&mut out, &text);
    push_data_chunk(&mut out, w);
    out
}

/// End of the line that starts at `i`: the index of the next `\n`, or
/// the end of `m`.
pub open spec fn line_end(m: Seq<u8>, i: int) -> int
    decreases m.len() - i,
{
    if i >= m.len() {
        m.len() as int
    } else if m[i] == 10 {
        i
    } else {
        line_end(m, i + 1)
    }
}

pub proof fn lemma_line_end(m: Seq<u8>, i: int)
    requires
        0 <= i <= m.len(),
    ensures
        i <= line_end(m, i) <= m.len(),
        line_end(m, i) < m.len() ==> m[line_end(m, i)] == 10,
    decreases m.len() - i,
{
    if i < m.len() && m[i] != 10 {
        lemma_line_end(m, i + 1);
    }
}

/// The line that starts at `start`, without its line ending (`\n` or
/// `\r\n`).
pub open spec fn line_at(m: Seq<u8>, start: int) -> Seq<u8> {
    let e = line_end(m, start);
    let l = m.subrange(start, e);
    if e < m.len() && l.len() > 0 && l.last() == 13 {
        l.drop_last()
    } else {
        l
    }
}

/// The number that `line` gives for `key`: the line is `key` followed by
/// a `u32`.
pub open spec fn key_value(line: Seq<u8>, key: Seq<u8>) -> Option<u32> {
    if key.len() <= line.len() && line.subrange(0, key.len() as int) == key {
        parse_u32_spec(line.subrange(key.len() as int, line.len() as int))
    } else {
        None
    }
}

/// The value of `key` in the metadata lines of `m` from `start` on, where
/// `acc` is the value so far: each line that gives a number for `key`
/// replaces it, so the last such line wins.
pub open spec fn meta_scan(m: Seq<u8>, key: Seq<u8>, start: int, acc: u32) -> u32
    decreases m.len() + 1 - start via meta_scan_decreases
{
    if start < 0 || start >= m.len() {
        acc
    } else {
        let next = match key_value(line_at(m, start), key) {
            Some(v) => v,
            None => acc,
        };
        meta_scan(m, key, line_end(m, start) + 1, next)
    }
}

#[via_fn]
proof fn meta_scan_decreases(m: Seq<u8>, key: Seq<u8>, start: int, acc: u32) {
    if 0 <= start < m.len() {
        lemma_line_end(m, start);
    }
}

/// Whether `m[at..at + key.len()]` is `key`.
fn has_key_at(m: &[u8], at: usize, end: usize, key: &[u8]) -> (r: bool)
    requires
        at <= end <= m@.len(),
    ensures
        r == (key@.len() <= end - at && m@.subrange(at as int, at + key@.len()) == key@),
{
    if key.len() > end - at {
        return false;
    }
    let mut i: usize = 0;
    while i < key.len()
        invariant
            key@.len() <= end - at,
            at <= end <= m@.len(),
            i <= key@.len(),
            forall|j: int| 0 <= j < i ==> m@[at + j] == key@[j],
        decreases key@.len() - i,
    {
        if m[at + i] != key[i] {
            assert(m@.subrange(at as int, at + key@.len())[i as int] != key@[i as int]);
            return false;
        }
        i += 1;
    }
    assert(m@.subrange(at as int, at + key@.len()) =~= key@);
    true
}

/// The value of `key` in the metadata lines of `m`, or `dflt` when no
/// line gives one.
#[verifier::rlimit(40)]
pub fn meta_value(m: &[u8], key: &[u8], dflt: u32) -> (r: u32)
    ensures
        r == meta_scan(m@, key@, 0, dflt),
{
    let len = m.len();
    let mut start: usize = 0;
    let mut acc = dflt;
    while start < len
        invariant
            len == m@.len(),
            start <= len,
            meta_scan(m@, key@, 0, dflt) == meta_scan(m@, key@, start as int, acc),
        decreases len - start,
    {
        let mut e = start;
        while e < len && m[e] != 10
            invariant
                len == m@.len(),
                start <= e <= len,
                line_end(m@, start as int) == line_end(m@, e as int),
            decreases len - e,
        {
            e += 1;
        }
        let lend = if e < len && e > start && m[e - 1] == 13 {
            e - 1
        } else {
            e
        };
        proof {
            lemma_line_end(m@, start as int);
        }
        assert(line_end(m@, e as int) == e);
        let ghost old_start = start as int;
        let ghost old_acc = acc;
        let ghost line = m@.subrange(start as int, lend as int);
        assert(line =~= line_at(m@, start as int));
        if has_key_at(m, start, lend, key) {
            assert(line.subrange(0, key@.len() as int) =~= m@.subrange(
                start as int,
                start + key@.len(),
            ));
            assert(line.subrange(key@.len() as int, line.len() as int) =~= m@.subrange(
                start + key@.len(),
                lend as int,
            ));
            match parse_u32(m, start + key.len(), lend) {
                Some(v) => {
                    acc = v;
                },
                None => {},
            }
        } else {
            assert(!(key@.len() <= line.len() && line.subrange(0, key@.len() as int) == key@)) by {
                if key@.len() <= line.len() {
                    assert(line.subrange(0, key@.len() as int) =~= m@.subrange(
                        start as int,
                        start + key@.len(),
                    ));
                }
            }
        }
        assert(acc == (match key_value(line_at(m@, old_start), key@) {
            Some(v) => v,
            None => old_acc,
        }));
        assert(meta_scan(m@, key@, old_start, old_acc) == meta_scan(m@, key@, e + 1, acc));
        if e == len {
            start = len;
        } else {
            start = e + 1;
        }
    }
    acc
}

/// Header before any chunk is read: what a file without the fields gets.
pub open spec fn initial_header() -> AnaHeader {
    AnaHeader { sample_rate: 44100, channels: 0, window_len: 0, dec_factor: 4 }
}

/// The fault in the chunk at `pos`, if any: a `fmt ` chunk must be whole,
/// at least 8 bytes, and declare format 3 (IEEE float); a `LIST` chunk
/// must hold its 4-byte list type, and an `adtl` list must be whole.
pub open spec fn chunk_fault(s: Seq<u8>, pos: int) -> Option<ReadFault> {
    let id = u32_at(s, pos);
    let size = u32_at(s, pos + 4) as int;
    let body = pos + 8;
    if id == FMT_ID as nat {
        if body + size > s.len() {
            Some(ReadFault::Truncated)
        } else if size < 8 || u16_at(s, body) != 3 {
            Some(ReadFault::Invalid)
        } else {
            None
        }
    } else if id == LIST_ID as nat {
        if body + 4 > s.len() {
            Some(ReadFault::Truncated)
        } else if size < 4 {
            Some(ReadFault::Invalid)
        } else if u32_at(s, body) == ADTL_ID as nat && body + size > s.len() {
            Some(ReadFault::Truncated)
        } else {
            None
        }
    } else {
        None
    }
}

/// The header after the chunk at `pos` (free of faults) is read: a
/// `fmt ` chunk sets rate and frame length, an `adtl` list sets window
/// length and overlap factor from its text lines.
pub open spec fn chunk_update(s: Seq<u8>, pos: int, h: AnaHeader) -> AnaHeader {
    let id = u32_at(s, pos);
    let size = u32_at(s, pos + 4) as int;
    let body = pos + 8;
    if id == FMT_ID as nat {
        AnaHeader {
            sample_rate: u32_at(s, body + 4) as u32,
            channels: u16_at(s, body + 2) as u16,
            window_len: h.window_len,
            dec_factor: h.dec_factor,
        }
    } else if id == LIST_ID as nat && u32_at(s, body) == ADTL_ID as nat {
        let m = s.subrange(body + 4, body + size);
        AnaHeader {
            sample_rate: h.sample_rate,
            channels: h.channels,
            window_len: meta_scan(m, key_window_len(), 0, h.window_len),
            dec_factor: meta_scan(m, key_dec_factor(), 0, h.dec_factor),
        }
    } else {
        h
    }
}

/// Walks the chunks from `pos` on with header `h` so far, up to the
/// `data` chunk. Gives the header and the offset and size of the data
/// payload; a file without a `data` chunk is invalid. Chunks of odd size
/// are followed by one pad byte.
pub open spec fn walk(s: Seq<u8>, pos: int, h: AnaHeader) -> Result<(AnaHeader, int, int), ReadFault>
    decreases s.len() - pos,
{
    if pos < 0 || pos + 8 > s.len() {
        Err(ReadFault::Invalid)
    } else {
        let size = u32_at(s, pos + 4) as int;
        let next = pos + 8 + size + size % 2;
        match chunk_fault(s, pos) {
            Some(f) => Err(f),
            None => if u32_at(s, pos) == DATA_ID as nat {
                Ok((h, pos + 8, size))
            } else if next > s.len() {
                Err(ReadFault::Invalid)
            } else {
                walk(s, next, chunk_update(s, pos, h))
            },
        }
    }
}

/// Whether the frame length of `h` is the one its window length gives:
/// `channels == (window_len / 2 + 1) * 2`.
pub open spec fn frame_len_matches(h: AnaHeader) -> bool {
    h.channels as int == (h.window_len as int / 2 + 1) * 2
}

/// What reading the bytes `s` as a spectral file gives: its header and
/// its flat frame values, or why it cannot be read. The file must start
/// with `RIFF`, a size, and `WAVE`; the chunks must give a window length
/// and a frame length that agree (`channels == (window_len / 2 + 1) * 2`)
/// and a `data` chunk; the payload must be whole `f32` values, an even
/// number of them, and whole frames.
pub open spec fn ana_read(s: Seq<u8>) -> Result<(AnaHeader, Seq<u32>), ReadFault> {
    if s.len() < 12 {
        Err(ReadFault::Truncated)
    } else if u32_at(s, 0) != RIFF_ID as nat || u32_at(s, 8) != WAVE_ID as nat {
        Err(ReadFault::Invalid)
    } else {
        match walk(s, 12, initial_header()) {
            Err(f) => Err(f),
            Ok((h, off, size)) => {
                let n = size / 4;
                if h.window_len == 0 || h.channels == 0 {
                    Err(ReadFault::Invalid)
                } else if !frame_len_matches(h) {
                    Err(ReadFault::Invalid)
                } else if off + 4 * n > s.len() {
                    Err(ReadFault::Truncated)
                } else if n % 2 != 0 || n % (h.channels as int) != 0 {
                    Err(ReadFault::Invalid)
                } else {
                    Ok((h, words_at(s, off, n as nat)))
                }
            },
        }
    }
}

/// The error that a read fault is reported as.
pub open spec fn fault_matches(e: SpectralError, f: ReadFault) -> bool {
    match f {
        ReadFault::Truncated => e is Io,
        ReadFault::Invalid => e is InvalidInput,
    }
}

fn invalid(msg: &str) -> (e: SpectralError)
    ensures
        e is InvalidInput,
{
    SpectralError::InvalidInput(msg.to_owned())
}

fn truncated() -> (e: SpectralError)
    ensures
        e is Io,
{
    SpectralError::Io(String::from_str("unexpected end of file"))
}

/// Copies `s[from..to]`.
fn copy_range(s: &[u8], from: usize, to: usize) -> (r: Vec<u8>)
    requires
        from <= to <= s@.len(),
    ensures
        r@ == s@.subrange(from as int, to as int),
{
    let mut r: Vec<u8> = Vec::new();
    let mut i = from;
    while i < to
        invariant
            from <= i <= to <= s@.len(),
            r@ == s@.subrange(from as int, i as int),
        decreases to - i,
    {
        r.push(s[i]);
        i += 1;
        assert(r@ =~= s@.subrange(from as int, i as int));
    }
    r
}

/// The fault in the chunk at `pos`, as `chunk_fault` states.
fn find_chunk_fault(s: &[u8], pos: usize) -> (r: Option<ReadFault>)
    requires
        pos + 8 <= s@.len(),
    ensures
        r == chunk_fault(s@, pos as int),
{
    let len = s.len();
    let id = read_u32(s, pos);
    let size = read_u32(s, pos + 4);
    let body = pos + 8;
    let rest = s.len() - body;
    if id == FMT_ID {
        if size as u64 > rest as u64 {
            Some(ReadFault::Truncated)
        } else if size < 8 || read_u16(s, body) != 3 {
            Some(ReadFault::Invalid)
        } else {
            None
        }
    } else if id == LIST_ID {
        if rest < 4 {
            Some(ReadFault::Truncated)
        } else if size < 4 {
            Some(ReadFault::Invalid)
        } else if read_u32(s, body) == ADTL_ID && size as u64 > rest as u64 {
            Some(ReadFault::Truncated)
        } else {
            None
        }
    } else {
        None
    }
}

/// The header after the chunk at `pos`, as `chunk_update` states.
fn apply_chunk(s: &[u8], pos: usize, h: AnaHeader) -> (r: AnaHeader)
    requires
        pos + 8 <= s@.len(),
        chunk_fault(s@, pos as int) is None,
    ensures
        r == chunk_update(s@, pos as int, h),
{
    let len = s.len();
    let id = read_u32(s, pos);
    let size = read_u32(s, pos + 4);
    let body = pos + 8;
    if id == FMT_ID {
        AnaHeader {
            sample_rate: read_u32(s, body + 4),
            channels: read_u16(s, body + 2),
            window_len: h.window_len,
            dec_factor: h.dec_factor,
        }
    } else if id == LIST_ID && read_u32(s, body) == ADTL_ID {
        let wk: [u8; 12] = [97, 110, 97, 108, 119, 105, 110, 108, 101, 110, 58, 32];
        let dk: [u8; 11] = [100, 101, 99, 102, 97, 99, 116, 111, 114, 58, 32];
        assert(wk@ =~= key_window_len());
        assert(dk@ =~= key_dec_factor());
        let m = copy_range(s, body + 4, body + size as usize);
        let wl = meta_value(m.as_slice(), wk.as_slice(), h.window_len);
        let df = meta_value(m.as_slice(), dk.as_slice(), h.dec_factor);
        AnaHeader { sample_rate: h.sample_rate, channels: h.channels, window_len: wl, dec_factor: df }
    } else {
        h
    }
}

/// Walks the chunks of `s` from offset 12 on, as `walk` describes.
#[verifier::rlimit(40)]
fn walk_chunks(s: &[u8]) -> (r: Result<(AnaHeader, usize, usize), ReadFault>)
    requires
        s@.len() >= 12,
    ensures
        match walk(s@, 12, initial_header()) {
            Ok((h, off, size)) => r is Ok && r->Ok_0.0 == h && r->Ok_0.1 == off && r->Ok_0.2
                == size,
            Err(f) => r == Err::<(AnaHeader, usize, usize), ReadFault>(f),
        },
{
    let len = s.len();
    let mut pos: usize = 12;
    let mut h = AnaHeader { sample_rate: 44100, channels: 0, window_len: 0, dec_factor: 4 };
    loop
        invariant
            len == s@.len(),
            pos <= len,
            walk(s@, 12, initial_header()) == walk(s@, pos as int, h),
        decreases len - pos,
    {
        if len - pos < 8 {
            return Err(ReadFault::Invalid);
        }
        let size = read_u32(s, pos + 4);
        let rest = len - (pos + 8);
        let step = size as u64 + (size % 2) as u64;
        match find_chunk_fault(s, pos) {
            Some(f) => {
                return Err(f);
            },
            None => {},
        }
        if read_u32(s, pos) == DATA_ID {
            return Ok((h, pos + 8, size as usize));
        }
        h = apply_chunk(s, pos, h);
        if step > rest as u64 {
            return Err(ReadFault::Invalid);
        }
        pos = pos + 8 + step as usize;
    }
}

/// Reads a spectral file from its bytes: the header and the flat frame
/// values (`f32` bit patterns). A truncated file gives `Io`, any other
/// fault `InvalidInput`.
#[verifier::rlimit(40)]
pub fn decode_ana(s: &[u8]) -> (r: Result<(AnaHeader, Vec<u32>), SpectralError>)
    ensures
        match ana_read(s@) {
            Ok((h, w)) => r is Ok && r->Ok_0.0 == h && r->Ok_0.1@ == w,
            Err(f) => r is Err && fault_matches(r->Err_0, f),
        },
{
    if s.len() < 12 {
        return Err(truncated());
    }
    if read_u32(s, 0) != RIFF_ID || read_u32(s, 8) != WAVE_ID {
        return Err(invalid("Not a valid WAV file"));
    }
    match walk_chunks(s) {
        Err(ReadFault::Truncated) => Err(truncated()),
        Err(ReadFault::Invalid) => Err(invalid("Invalid chunk in spectral file")),
        Ok((h, off, size)) => {
            let n = size / 4;
            if h.window_len == 0 || h.channels == 0 {
                return Err(invalid("Missing or invalid analysis metadata"));
            }
            if h.channels as u64 != (h.window_len as u64 / 2 + 1) * 2 {
                return Err(invalid("Channel count does not match the window length"));
            }
            if off > s.len() || n > (s.len() - off) / 4 {
                return Err(truncated());
            }
            if n % 2 != 0 {
                return Err(invalid("Spectral data must contain real/imaginary pairs"));
            }
            if n % (h.channels as usize) != 0 {
                return Err(invalid("Data size doesn't match channel count"));
            }
            let w = read_words(s, off, n);
            Ok((h, w))
        },
    }
}

} // verus!
