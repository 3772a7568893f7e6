//! Little-endian integer encoding, as used by RIFF containers.
use vstd::prelude::*;

verus! {

/// Chunk and form identifiers, each the little-endian `u32` of its four
/// ASCII characters.
pub const RIFF_ID: u32 = 0x4646_4952;

pub const WAVE_ID: u32 = 0x4556_4157;

pub const FMT_ID: u32 = 0x2074_6d66;

pub const LIST_ID: u32 = 0x5453_494c;

pub const ADTL_ID: u32 = 0x6c74_6461;

pub const NOTE_ID: u32 = 0x6574_6f6e;

pub const DATA_ID: u32 = 0x6174_6164;

pub const PEAK_ID: u32 = 0x4b41_4550;

pub const CUE_ID: u32 = 0x2065_7563;

pub const SFIF_ID: u32 = 0x6669_6673;

/// The value of two little-endian bytes.
pub open spec fn le16(b0: u8, b1: u8) -> nat {
    b0 as nat + 256 * (b1 as nat)
}

/// The value of four little-endian bytes.
pub open spec fn le32(b0: u8, b1: u8, b2: u8, b3: u8) -> nat {
    b0 as nat + 256 * (b1 as nat) + 65536 * (b2 as nat) + 16777216 * (b3 as nat)
}

/// The `u16` stored at `at` in `s`.
pub open spec fn u16_at(s: Seq<u8>, at: int) -> nat {
    le16(s[at], s[at + 1])
}

/// The `u32` stored at `at` in `s`.
pub open spec fn u32_at(s: Seq<u8>, at: int) -> nat {
    le32(s[at], s[at + 1], s[at + 2], s[at + 3])
}

/// The little-endian bytes of a `u16`.
pub open spec fn le16_bytes(v: u16) -> Seq<u8> {
    seq![(v % 256) as u8, (v / 256) as u8]
}

/// The little-endian bytes of a `u32`.
pub open spec fn le32_bytes(v: u32) -> Seq<u8> {
    seq![
        (v % 256) as u8,
        ((v / 256) % 256) as u8,
        ((v / 65536) % 256) as u8,
        (v / 16777216) as u8,
    ]
}

pub proof fn lemma_le32_round_trip(v: u32)
    ensures
        u32_at(le32_bytes(v), 0) == v as nat,
{
    let s = le32_bytes(v);
    assert(s[0] as nat + 256 * (s[1] as nat) + 65536 * (s[2] as nat) + 16777216 * (s[3] as nat)
        == v as nat) by (nonlinear_arith)
        requires
            s[0] == (v % 256) as u8,
            s[1] == ((v / 256) % 256) as u8,
            s[2] == ((v / 65536) % 256) as u8,
            s[3] == (v / 16777216) as u8,
    ;
}

pub proof fn lemma_le16_round_trip(v: u16)
    ensures
        u16_at(le16_bytes(v), 0) == v as nat,
{
}

/// Reads the `u16` stored at `at`.
pub fn read_u16(s: &[u8], at: usize) -> (r: u16)
    requires
        at + 2 <= s@.len(),
    ensures
        r as nat == u16_at(s@, at as int),
{
    s[at] as u16 + 256 * (s[at + 1] as u16)
}

/// Reads the `u32` stored at `at`.
pub fn read_u32(s: &[u8], at: usize) -> (r: u32)
    requires
        at + 4 <= s@.len(),
    ensures
        r as nat == u32_at(s@, at as int),
{
    s[at] as u32 + 256 * (s[at + 1] as u32) + 65536 * (s[at + 2] as u32) + 16777216 * (
    s[at + 3] as u32)
}

/// Appends the little-endian bytes of `v`.
pub fn push_u16(out: &mut Vec<u8>, v: u16)
    ensures
        final(out)@ == old(out)@ + le16_bytes(v),
{
    out.push((v % 256) as u8);
    out.push((v / 256) as u8);
    assert(final(out)@ =~= old(out)@ + le16_bytes(v));
}

/// Appends the little-endian bytes of `v`.
pub fn push_u32(out: &mut Vec<u8>, v: u32)
    ensures
        final(out)@ == old(out)@ + le32_bytes(v),
{
    out.push((v % 256) as u8);
    out.push(((v / 256) % 256) as u8);
    out.push(((v / 65536) % 256) as u8);
    out.push((v / 16777216) as u8);
}

/// The little-endian bytes of a sequence of words, in order.
pub open spec fn words_bytes(w: Seq<u32>) -> Seq<u8>
    decreases w.len(),
{
    if w.len() == 0 {
        Seq::empty()
    } else {
        words_bytes(w.drop_last()) + le32_bytes(w.last())
    }
}

/// The `n` words stored little-endian from `at` on.
pub open spec fn words_at(s: Seq<u8>, at: int, n: nat) -> Seq<u32> {
    Seq::new(n, |k: int| u32_at(s, at + 4 * k) as u32)
}

/// Appends the little-endian bytes of every word.
pub fn push_words(out: &mut Vec<u8>, w: &[u32])
    ensures
        final(out)@ == old(out)@ + words_bytes(w@),
{
    let mut i: usize = 0;
    while i < w.len()
        invariant
            i <= w@.len(),
            out@ == old(out)@ + words_bytes(w@.subrange(0, i as int)),
        decreases w@.len() - i,
    {
        push_u32(out, w[i]);
        i += 1;
        assert(w@.subrange(0, i as int).drop_last() =~= w@.subrange(0, i as int - 1));
        assert(out@ =~= old(out)@ + words_bytes(w@.subrange(0, i as int)));
    }
    assert(w@.subrange(0, i as int) =~= w@);
}

/// Reads the `n` words stored little-endian from `at` on.
pub fn read_words(s: &[u8], at: usize, n: usize) -> (r: Vec<u32>)
    requires
        at + 4 * n <= s@.len(),
    ensures
        r@ == words_at(s@, at as int, n as nat),
{
    let len = s.len();
    let mut r: Vec<u32> = Vec::new();
    let mut k: usize = 0;
    while k < n
        invariant
            k <= n,
            len == s@.len(),
            at + 4 * n <= s@.len(),
            r@ == words_at(s@, at as int, k as nat),
        decreases n - k,
    {
        let v = read_u32(s, at + 4 * k);
        r.push(v);
        k += 1;
        assert(r@ =~= words_at(s@, at as int, k as nat));
    }
    r
}

/// Appends every byte of `tail`.
pub fn push_all(out: &mut Vec<u8>, tail: &[u8])
    ensures
        final(out)@ == old(out)@ + tail@,
{
    let mut i: usize = 0;
    while i < tail.len()
        invariant
            i <= tail@.len(),
            out@ == old(out)@ + tail@.subrange(0, i as int),
        decreases tail@.len() - i,
    {
        out.push(tail[i]);
        i += 1;
        assert(out@ =~= old(out)@ + tail@.subrange(0, i as int));
    }
    assert(tail@.subrange(0, i as int) =~= tail@);
}

/// A `u32` written at `k` in `t`, which stands at `a` in `s`, reads back
/// from `s` at `a + k`.
pub proof fn lemma_u32_in(s: Seq<u8>, a: int, t: Seq<u8>, k: int, x: u32)
    requires
        0 <= a,
        a + t.len() <= s.len(),
        s.subrange(a, a + t.len()) == t,
        0 <= k,
        k + 4 <= t.len(),
        t.subrange(k, k + 4) == le32_bytes(x),
    ensures
        u32_at(s, a + k) == x,
{
    lemma_le32_round_trip(x);
    assert(s[a + k] == t[k]);
    assert(s[a + k + 1] == t[k + 1]);
    assert(s[a + k + 2] == t[k + 2]);
    assert(s[a + k + 3] == t[k + 3]);
    assert(t[k] == le32_bytes(x)[0]);
    assert(t[k + 1] == le32_bytes(x)[1]);
    assert(t[k + 2] == le32_bytes(x)[2]);
    assert(t[k + 3] == le32_bytes(x)[3]);
}

/// A `u16` written at `k` in `t`, which stands at `a` in `s`, reads back
/// from `s` at `a + k`.
pub proof fn lemma_u16_in(s: Seq<u8>, a: int, t: Seq<u8>, k: int, x: u16)
    requires
        0 <= a,
        a + t.len() <= s.len(),
        s.subrange(a, a + t.len()) == t,
        0 <= k,
        k + 2 <= t.len(),
        t.subrange(k, k + 2) == le16_bytes(x),
    ensures
        u16_at(s, a + k) == x,
{
    lemma_le16_round_trip(x);
    assert(s[a + k] == t[k]);
    assert(s[a + k + 1] == t[k + 1]);
    assert(t[k] == le16_bytes(x)[0]);
    assert(t[k + 1] == le16_bytes(x)[1]);
}

} // verus!
