//! What the PCM reader makes of what the writer wrote.
use vstd::prelude::*;
use crate::bytes::{
    le16_bytes, le32_bytes, lemma_u16_in, lemma_u32_in, u16_at, u32_at,
    CUE_ID, DATA_ID, FMT_ID, LIST_ID, PEAK_ID, RIFF_ID, WAVE_ID,
};
use crate::wav::{
    cdp_wav_bytes, cue_chunk, i16_at, note_chunk, pcm_data_chunk, pcm_fmt_chunk, pcm_read,
    pcm_walk, peak_chunk, samples_at, samples_bytes, CdpChunks, WavFormat, MAX_SAMPLES,
};

verus! {


proof fn lemma_i16_cast(v: i16)
    ensures
        (v as u16) as i16 == v,
{
    assert((v as u16) as i16 == v) by (bit_vector);
}

/// The bytes of samples hold each sample at twice its index.
#[verifier::rlimit(60)]
pub proof fn lemma_samples_bytes(w: Seq<i16>)
    ensures
        samples_bytes(w).len() == 2 * w.len(),
        forall|k: int| 0 <= k < w.len() ==> #[trigger] i16_at(samples_bytes(w), 2 * k) == w[k],
    decreases w.len(),
{
    if w.len() > 0 {
        let v = w.drop_last();
        lemma_samples_bytes(v);
        let b = samples_bytes(w);
        assert forall|k: int| 0 <= k < w.len() implies #[trigger] i16_at(b, 2 * k) == w[k] by {
            if k < v.len() {
                assert(i16_at(samples_bytes(v), 2 * k) == v[k]);
                assert(b[2 * k] == samples_bytes(v)[2 * k]);
                assert(b[2 * k + 1] == samples_bytes(v)[2 * k + 1]);
            } else {
                let x = w.last() as u16;
                assert(b.subrange(2 * k, 2 * k + 2) =~= le16_bytes(x));
                assert(b.subrange(0, b.len() as int) =~= b);
                lemma_u16_in(b, 0, b, 2 * k, x);
                lemma_i16_cast(w.last());
            }
        }
    }
}

/// Where the `data` chunk of a written file starts.
pub open spec fn data_at(note: Seq<u8>) -> int {
    (116 + note.len() + note.len() % 2) as int
}

#[verifier::rlimit(80)]
proof fn lemma_wav_pieces(f: WavFormat, w: Seq<i16>, c: CdpChunks, note: Seq<u8>)
    requires
        w.len() <= MAX_SAMPLES,
        note.len() <= 0x1000_0000,
    ensures
        ({
            let s = cdp_wav_bytes(f, w, c, note);
            let d0 = data_at(note);
            &&& s.len() == d0 + 8 + 2 * w.len()
            &&& s.subrange(12, 36) == pcm_fmt_chunk(f)
            &&& s.subrange(36, 60) == peak_chunk(c.peak)
            &&& s.subrange(60, 96) == cue_chunk(c.cue.cue_point)
            &&& s.subrange(96, d0) == note_chunk(note)
            &&& s.subrange(d0, s.len() as int) == pcm_data_chunk(w)
            &&& u32_at(s, 0) == RIFF_ID as nat
            &&& u32_at(s, 8) == WAVE_ID as nat
        }),
{
    reveal(cdp_wav_bytes);
    let s = cdp_wav_bytes(f, w, c, note);
    let n = note.len() as int;
    let riff_size = 4 + 24 + 24 + 36 + 8 + 12 + n + n % 2 + 8 + 2 * w.len();
    let a = le32_bytes(RIFF_ID) + le32_bytes(riff_size as u32) + le32_bytes(WAVE_ID);
    let fc = pcm_fmt_chunk(f);
    let pc = peak_chunk(c.peak);
    let cc = cue_chunk(c.cue.cue_point);
    let nc = note_chunk(note);
    let dc = pcm_data_chunk(w);
    lemma_samples_bytes_len(w);
    assert(a.len() == 12);
    assert(fc.len() == 24);
    assert(pc.len() == 24);
    assert(cc.len() == 36);
    assert(nc.len() == 20 + n + n % 2);
    let x1 = a + fc;
    let x2 = x1 + pc;
    let x3 = x2 + cc;
    let x4 = x3 + nc;
    assert(s == x4 + dc);
    let d0 = data_at(note);
    assert(s.subrange(0, d0) =~= x4);
    assert(s.subrange(d0, s.len() as int) =~= dc);
    assert(x4.subrange(0, 96) =~= x3);
    assert(x4.subrange(96, d0) =~= nc);
    assert(x3.subrange(0, 60) =~= x2);
    assert(x3.subrange(60, 96) =~= cc);
    assert(x2.subrange(0, 36) =~= x1);
    assert(x2.subrange(36, 60) =~= pc);
    assert(x1.subrange(0, 12) =~= a);
    assert(x1.subrange(12, 36) =~= fc);
    assert(s.subrange(96, d0) =~= x4.subrange(96, d0));
    assert(s.subrange(60, 96) =~= x3.subrange(60, 96));
    assert(s.subrange(36, 60) =~= x2.subrange(36, 60));
    assert(s.subrange(12, 36) =~= x1.subrange(12, 36));
    assert(s.subrange(0, 12) =~= a);
    assert(a.subrange(0, 4) =~= le32_bytes(RIFF_ID));
    assert(a.subrange(8, 12) =~= le32_bytes(WAVE_ID));
    lemma_u32_in(s, 0, a, 0, RIFF_ID);
    lemma_u32_in(s, 0, a, 8, WAVE_ID);
}

#[verifier::rlimit(50)]
proof fn lemma_wav_fmt_fields(f: WavFormat, w: Seq<i16>, c: CdpChunks, note: Seq<u8>)
    requires
        w.len() <= MAX_SAMPLES,
        note.len() <= 0x1000_0000,
    ensures
        ({
            let s = cdp_wav_bytes(f, w, c, note);
            &&& u32_at(s, 12) == FMT_ID as nat
            &&& u32_at(s, 16) == 16
            &&& u16_at(s, 22) == f.channels as nat
            &&& u32_at(s, 24) == f.sample_rate as nat
            &&& u16_at(s, 34) == f.bits_per_sample as nat
        }),
{
    lemma_wav_pieces(f, w, c, note);
    let s = cdp_wav_bytes(f, w, c, note);
    let fc = pcm_fmt_chunk(f);
    assert(fc.subrange(0, 4) =~= le32_bytes(FMT_ID));
    assert(fc.subrange(4, 8) =~= le32_bytes(16));
    assert(fc.subrange(10, 12) =~= le16_bytes(f.channels));
    assert(fc.subrange(12, 16) =~= le32_bytes(f.sample_rate));
    assert(fc.subrange(22, 24) =~= le16_bytes(f.bits_per_sample));
    lemma_u32_in(s, 12, fc, 0, FMT_ID);
    lemma_u32_in(s, 12, fc, 4, 16);
    lemma_u16_in(s, 12, fc, 10, f.channels);
    lemma_u32_in(s, 12, fc, 12, f.sample_rate);
    lemma_u16_in(s, 12, fc, 22, f.bits_per_sample);
}

#[verifier::rlimit(50)]
proof fn lemma_wav_marker_fields(f: WavFormat, w: Seq<i16>, c: CdpChunks, note: Seq<u8>)
    requires
        w.len() <= MAX_SAMPLES,
        note.len() <= 0x1000_0000,
    ensures
        ({
            let s = cdp_wav_bytes(f, w, c, note);
            &&& u32_at(s, 36) == PEAK_ID as nat
            &&& u32_at(s, 40) == 16
            &&& u32_at(s, 60) == CUE_ID as nat
            &&& u32_at(s, 64) == 28
            &&& u32_at(s, 96) == LIST_ID as nat
            &&& u32_at(s, 100) == 12 + note.len()
        }),
{
    lemma_wav_pieces(f, w, c, note);
    let s = cdp_wav_bytes(f, w, c, note);
    let pc = peak_chunk(c.peak);
    let cc = cue_chunk(c.cue.cue_point);
    let nc = note_chunk(note);
    assert(pc.subrange(0, 4) =~= le32_bytes(PEAK_ID));
    assert(pc.subrange(4, 8) =~= le32_bytes(16));
    lemma_u32_in(s, 36, pc, 0, PEAK_ID);
    lemma_u32_in(s, 36, pc, 4, 16);
    assert(cc.subrange(0, 4) =~= le32_bytes(CUE_ID));
    assert(cc.subrange(4, 8) =~= le32_bytes(28));
    lemma_u32_in(s, 60, cc, 0, CUE_ID);
    lemma_u32_in(s, 60, cc, 4, 28);
    assert(nc.subrange(0, 4) =~= le32_bytes(LIST_ID));
    assert(nc.subrange(4, 8) =~= le32_bytes((12 + note.len()) as u32));
    lemma_u32_in(s, 96, nc, 0, LIST_ID);
    lemma_u32_in(s, 96, nc, 4, (12 + note.len()) as u32);
}

proof fn lemma_samples_bytes_len(w: Seq<i16>)
    ensures
        samples_bytes(w).len() == 2 * w.len(),
    decreases w.len(),
{
    if w.len() > 0 {
        lemma_samples_bytes_len(w.drop_last());
    }
}

/// Samples written from `at` on read back as they were.
#[verifier::rlimit(60)]
proof fn lemma_samples_in(s: Seq<u8>, at: int, w: Seq<i16>)
    requires
        0 <= at,
        at + 2 * w.len() <= s.len(),
        s.subrange(at, at + 2 * w.len()) == samples_bytes(w),
    ensures
        samples_at(s, at, w.len()) == w,
{
    lemma_samples_bytes(w);
    let sb = samples_bytes(w);
    let n = w.len() as int;
    assert forall|k: int| 0 <= k < n implies #[trigger] samples_at(s, at, n as nat)[k] == w[k] by {
        assert(i16_at(sb, 2 * k) == w[k]);
        assert(s[at + 2 * k] == sb[2 * k]);
        assert(s[at + 2 * k + 1] == sb[2 * k + 1]);
        assert(u16_at(s, at + 2 * k) == u16_at(sb, 2 * k));
    }
    assert(samples_at(s, at, n as nat) =~= w);
}

/// The `data` chunk ends a written file.
#[verifier::rlimit(60)]
proof fn lemma_wav_tail(f: WavFormat, w: Seq<i16>, c: CdpChunks, note: Seq<u8>)
    requires
        w.len() <= MAX_SAMPLES,
        note.len() <= 0x1000_0000,
    ensures
        ({
            let s = cdp_wav_bytes(f, w, c, note);
            let d0 = data_at(note);
            &&& s.len() == d0 + 8 + 2 * w.len()
            &&& s.subrange(d0, d0 + 4) == le32_bytes(DATA_ID)
            &&& s.subrange(d0 + 4, d0 + 8) == le32_bytes((2 * w.len()) as u32)
            &&& s.subrange(d0 + 8, d0 + 8 + 2 * w.len()) == samples_bytes(w)
        }),
{
    reveal(cdp_wav_bytes);
    let s = cdp_wav_bytes(f, w, c, note);
    let n = note.len() as int;
    let riff_size = 4 + 24 + 24 + 36 + 8 + 12 + n + n % 2 + 8 + 2 * w.len();
    let a = le32_bytes(RIFF_ID) + le32_bytes(riff_size as u32) + le32_bytes(WAVE_ID);
    let x4 = a + pcm_fmt_chunk(f) + peak_chunk(c.peak) + cue_chunk(c.cue.cue_point) + note_chunk(
        note,
    );
    let dc = pcm_data_chunk(w);
    lemma_samples_bytes_len(w);
    assert(x4.len() == data_at(note));
    assert(s == x4 + dc);
    let d0 = data_at(note);
    assert(s.subrange(d0, d0 + 4) =~= le32_bytes(DATA_ID));
    assert(s.subrange(d0 + 4, d0 + 8) =~= le32_bytes((2 * w.len()) as u32));
    assert(s.subrange(d0 + 8, d0 + 8 + 2 * w.len()) =~= samples_bytes(w));
}

#[verifier::rlimit(60)]
proof fn lemma_wav_data_fields(f: WavFormat, w: Seq<i16>, c: CdpChunks, note: Seq<u8>)
    requires
        w.len() <= MAX_SAMPLES,
        note.len() <= 0x1000_0000,
    ensures
        ({
            let s = cdp_wav_bytes(f, w, c, note);
            let d0 = data_at(note);
            &&& u32_at(s, d0) == DATA_ID as nat
            &&& u32_at(s, d0 + 4) == 2 * w.len()
            &&& samples_at(s, d0 + 8, w.len()) == w
        }),
{
    lemma_wav_tail(f, w, c, note);
    let s = cdp_wav_bytes(f, w, c, note);
    let d0 = data_at(note);
    let t = s.subrange(d0, d0 + 8);
    assert(t.subrange(0, 4) =~= s.subrange(d0, d0 + 4));
    assert(t.subrange(4, 8) =~= s.subrange(d0 + 4, d0 + 8));
    lemma_u32_in(s, d0, t, 0, DATA_ID);
    lemma_u32_in(s, d0, t, 4, (2 * w.len()) as u32);
    lemma_samples_in(s, d0 + 8, w);
}

proof fn lemma_pcm_skip(s: Seq<u8>, pos: int, fmt: Option<WavFormat>, size: int)
    requires
        0 <= pos,
        u32_at(s, pos + 4) == size,
        pos + 8 + size + size % 2 <= s.len(),
        u32_at(s, pos) != DATA_ID as nat,
        u32_at(s, pos) != FMT_ID as nat,
    ensures
        pcm_walk(s, pos, fmt) == pcm_walk(s, pos + 8 + size + size % 2, fmt),
{
}

proof fn lemma_pcm_fmt(s: Seq<u8>, pos: int, fmt: Option<WavFormat>)
    requires
        0 <= pos,
        pos + 24 <= s.len(),
        u32_at(s, pos) == FMT_ID as nat,
        u32_at(s, pos + 4) == 16,
    ensures
        pcm_walk(s, pos, fmt) == pcm_walk(
            s,
            pos + 24,
            Some(
                WavFormat {
                    channels: u16_at(s, pos + 10) as u16,
                    sample_rate: u32_at(s, pos + 12) as u32,
                    bits_per_sample: u16_at(s, pos + 22) as u16,
                    data_size: 0,
                },
            ),
        ),
{
}

proof fn lemma_pcm_data(s: Seq<u8>, pos: int, f: WavFormat, n: nat)
    requires
        0 <= pos,
        pos + 8 + 2 * n <= s.len(),
        u32_at(s, pos) == DATA_ID as nat,
        u32_at(s, pos + 4) == 2 * n,
    ensures
        pcm_walk(s, pos, Some(f)) == Some(
            (WavFormat { data_size: (2 * n) as u32, ..f }, samples_at(s, pos + 8, n)),
        ),
{
    assert((2 * n) / 2 == n);
}

/// The walk over bytes laid out as the writer lays them out.
#[verifier::rlimit(60)]
proof fn lemma_walk_written(s: Seq<u8>, f: WavFormat, w: Seq<i16>, n: int, d0: int)
    requires
        0 <= n,
        d0 == 116 + n + n % 2,
        s.len() == d0 + 8 + 2 * w.len(),
        u32_at(s, 12) == FMT_ID as nat,
        u32_at(s, 16) == 16,
        u16_at(s, 22) == f.channels as nat,
        u32_at(s, 24) == f.sample_rate as nat,
        u16_at(s, 34) == f.bits_per_sample as nat,
        u32_at(s, 36) == PEAK_ID as nat,
        u32_at(s, 40) == 16,
        u32_at(s, 60) == CUE_ID as nat,
        u32_at(s, 64) == 28,
        u32_at(s, 96) == LIST_ID as nat,
        u32_at(s, 100) == 12 + n,
        u32_at(s, d0) == DATA_ID as nat,
        u32_at(s, d0 + 4) == 2 * w.len(),
        samples_at(s, d0 + 8, w.len()) == w,
    ensures
        pcm_walk(s, 12, None) == Some((WavFormat { data_size: (2 * w.len()) as u32, ..f }, w)),
{
    lemma_pcm_fmt(s, 12, None);
    let f1 = WavFormat {
        channels: f.channels,
        sample_rate: f.sample_rate,
        bits_per_sample: f.bits_per_sample,
        data_size: 0,
    };
    lemma_pcm_skip(s, 36, Some(f1), 16);
    lemma_pcm_skip(s, 60, Some(f1), 28);
    assert((12 + n) % 2 == n % 2);
    lemma_pcm_skip(s, 96, Some(f1), 12 + n);
    lemma_pcm_data(s, d0, f1, w.len());
}

/// Reading a file the writer wrote gives back its format, with the size
/// of its sample data, and its samples: whatever the marker chunks hold,
/// writing keeps the sound.
pub proof fn lemma_wav_round_trip(f: WavFormat, w: Seq<i16>, c: CdpChunks, note: Seq<u8>)
    requires
        0 < w.len() <= MAX_SAMPLES,
        note.len() <= 0x1000_0000,
    ensures
        pcm_read(cdp_wav_bytes(f, w, c, note)) == Some(
            (WavFormat { data_size: (2 * w.len()) as u32, ..f }, w),
        ),
{
    lemma_wav_pieces(f, w, c, note);
    lemma_wav_fmt_fields(f, w, c, note);
    lemma_wav_marker_fields(f, w, c, note);
    lemma_wav_data_fields(f, w, c, note);
    let s = cdp_wav_bytes(f, w, c, note);
    lemma_walk_written(s, f, w, note.len() as int, data_at(note));
}

} // verus!
