//! What the `.ana` reader makes of what the writer wrote.
use vstd::prelude::*;
use crate::ana::{
    ana_metadata, header_writable, key_arate, key_dec_factor, key_origrate, key_sample_rate,
    key_value, key_window_len, lemma_line_end, line_at, line_end, meta_line, meta_prefix,
    meta_scan, pad, text_date, text_sampsize, AnaHeader,
};
use crate::ana::{
    ana_bytes, ana_read, chunk_fault, chunk_update, data_chunk, fmt_chunk, initial_header,
    list_chunk, list_size, walk, MAX_VALUES,
};
use crate::bytes::{
    le16_bytes, le32_bytes, lemma_le32_round_trip, lemma_u16_in, lemma_u32_in, u16_at, u32_at,
    words_at, words_bytes, ADTL_ID, DATA_ID, FMT_ID, LIST_ID, NOTE_ID, RIFF_ID, WAVE_ID,
};
use crate::text::{
    all_digits, dec, digits_upto, digits_value, fixed5, five_digits, is_digit, lemma_dec_len,
    lemma_fixed5_len, parse_u32_spec, ratio_e5,
};

verus! {

proof fn lemma_line_end_at(m: Seq<u8>, i: int, j: int)
    requires
        0 <= i <= j < m.len(),
        m[j] == 10,
        forall|k: int| i <= k < j ==> m[k] != 10,
    ensures
        line_end(m, i) == j,
    decreases j - i,
{
    if i < j {
        lemma_line_end_at(m, i + 1, j);
    }
}

proof fn lemma_line_end_shift(pre: Seq<u8>, rest: Seq<u8>, i: int)
    requires
        0 <= i <= rest.len(),
    ensures
        line_end(pre + rest, pre.len() + i) == pre.len() + line_end(rest, i),
    decreases rest.len() - i,
{
    let m = pre + rest;
    if i < rest.len() {
        assert(m[pre.len() + i] == rest[i]);
        if rest[i] != 10 {
            lemma_line_end_shift(pre, rest, i + 1);
        }
    }
}

/// Scanning past a prefix: the lines of `rest` are read as they are.
proof fn lemma_scan_shift(pre: Seq<u8>, rest: Seq<u8>, key: Seq<u8>, i: int, acc: u32)
    requires
        0 <= i,
    ensures
        meta_scan(pre + rest, key, pre.len() + i, acc) == meta_scan(rest, key, i, acc),
    decreases rest.len() + 1 - i,
{
    let m = pre + rest;
    if i < rest.len() {
        lemma_line_end_shift(pre, rest, i);
        lemma_line_end(rest, i);
        let e = line_end(rest, i);
        assert(m.subrange(pre.len() + i, pre.len() + e) =~= rest.subrange(i, e));
        if e < rest.len() {
            assert(m[pre.len() + e] == rest[e]);
        }
        assert(line_at(m, pre.len() + i) == line_at(rest, i));
        let next = match key_value(line_at(rest, i), key) {
            Some(v) => v,
            None => acc,
        };
        lemma_scan_shift(pre, rest, key, e + 1, next);
        assert(pre.len() + e + 1 == pre.len() + (e + 1));
    }
}

/// Scanning a first line `line` ended by `\n`.
pub proof fn lemma_scan_peel(line: Seq<u8>, rest: Seq<u8>, key: Seq<u8>, acc: u32)
    requires
        forall|k: int| 0 <= k < line.len() ==> line[k] != 10,
        line.len() == 0 || line.last() != 13,
    ensures
        meta_scan(line + seq![10u8] + rest, key, 0, acc) == meta_scan(
            rest,
            key,
            0,
            match key_value(line, key) {
                Some(v) => v,
                None => acc,
            },
        ),
{
    let pre = line + seq![10u8];
    let m = pre + rest;
    assert forall|k: int| 0 <= k < line.len() implies m[k] != 10 by {
        assert(m[k] == line[k]);
    }
    assert(m[line.len() as int] == 10);
    lemma_line_end_at(m, 0, line.len() as int);
    assert(m.subrange(0, line.len() as int) =~= line);
    assert(line_at(m, 0) == line);
    let next = match key_value(line, key) {
        Some(v) => v,
        None => acc,
    };
    lemma_scan_shift(pre, rest, key, 0, next);
}

/// A line that differs from `key` at some place within the key gives no
/// value for it.
pub proof fn lemma_key_mismatch(line: Seq<u8>, key: Seq<u8>, j: int)
    requires
        0 <= j < key.len(),
        j < line.len(),
        line[j] != key[j],
    ensures
        key_value(line, key) is None,
{
    if key.len() <= line.len() {
        assert(line.subrange(0, key.len() as int)[j] != key[j]);
    }
}

/// No byte of `s` is a line feed.
pub open spec fn no_newline(s: Seq<u8>) -> bool {
    forall|k: int| 0 <= k < s.len() ==> s[k] != 10
}

proof fn lemma_no_newline_concat(a: Seq<u8>, b: Seq<u8>)
    requires
        no_newline(a),
        no_newline(b),
    ensures
        no_newline(a + b),
{
    assert forall|k: int| 0 <= k < (a + b).len() implies (a + b)[k] != 10 by {
        if k < a.len() {
            assert((a + b)[k] == a[k]);
        } else {
            assert((a + b)[k] == b[k - a.len()]);
        }
    }
}

/// The digits of `n` are digits, and spell `n`.
pub proof fn lemma_dec_digits(n: nat)
    ensures
        all_digits(dec(n)),
        digits_value(dec(n)) == n,
        no_newline(dec(n)),
        dec(n).last() != 13,
    decreases n,
{
    if n >= 10 {
        lemma_dec_digits(n / 10);
        assert(dec(n).drop_last() =~= dec(n / 10));
        assert(dec(n).last() == (48 + n % 10) as u8);
        assert((n / 10) * 10 + n % 10 == n);
        assert(digits_value(dec(n)) == digits_value(dec(n).drop_last()) * 10 + (dec(n).last() - 48) as nat);
        assert forall|i: int| 0 <= i < dec(n).len() implies is_digit(#[trigger] dec(n)[i]) by {
            if i < dec(n / 10).len() {
                assert(dec(n)[i] == dec(n / 10)[i]);
            }
        }
    } else {
        assert(dec(n).drop_last() =~= Seq::<u8>::empty());
        assert(digits_value(dec(n)) == digits_value(dec(n).drop_last()) * 10 + (dec(n).last() - 48) as nat);
        assert(digits_value(Seq::<u8>::empty()) == 0);
    }
}

/// Reading back the digits of a `u32` gives it.
pub proof fn lemma_parse_dec(n: nat)
    requires
        n <= u32::MAX,
    ensures
        parse_u32_spec(dec(n)) == Some(n as u32),
{
    lemma_dec_digits(n);
    assert(is_digit(dec(n)[0]));
    assert(digits_upto(dec(n), u32::MAX as nat) == Some(n));
}

/// A line `key` + digits of `n` gives `n` for `key`.
proof fn lemma_key_line(key: Seq<u8>, n: nat)
    requires
        n <= u32::MAX,
    ensures
        key_value(key + dec(n), key) == Some(n as u32),
{
    let line = key + dec(n);
    assert(line.subrange(0, key.len() as int) =~= key);
    assert(line.subrange(key.len() as int, line.len() as int) =~= dec(n));
    lemma_parse_dec(n);
}

proof fn lemma_fixed5_text(num: nat, den: nat)
    requires
        num <= u32::MAX,
        den >= 1,
    ensures
        no_newline(fixed5(num, den)),
        fixed5(num, den).last() != 13,
{
    let v = ratio_e5(num, den);
    lemma_fixed5_len(num, den);
    lemma_dec_digits(v / 100000);
    let f = five_digits(v % 100000);
    assert(no_newline(seq![46u8]));
    assert(no_newline(f));
    lemma_no_newline_concat(dec(v / 100000), seq![46u8]);
    lemma_no_newline_concat(dec(v / 100000) + seq![46u8], f);
}

/// The metadata chunk body of header `h`: the `note` tag, the text length,
/// the text, and a pad byte for an odd length.
pub open spec fn meta_body(h: AnaHeader) -> Seq<u8> {
    let text = ana_metadata(h);
    le32_bytes(NOTE_ID) + le32_bytes(text.len() as u32) + text + pad(text.len())
}

/// The tag and the text length that precede the metadata text.
pub open spec fn meta_head(h: AnaHeader) -> Seq<u8> {
    le32_bytes(NOTE_ID) + le32_bytes(ana_metadata(h).len() as u32)
}

/// Whether `a` is empty or ends with a line feed.
pub open spec fn whole_lines(a: Seq<u8>) -> bool {
    a.len() == 0 || a.last() == 10
}

proof fn lemma_line_end_within(a: Seq<u8>, b: Seq<u8>, i: int)
    requires
        0 <= i <= a.len(),
        line_end(a, i) < a.len(),
    ensures
        line_end(a + b, i) == line_end(a, i),
    decreases a.len() - i,
{
    let m = a + b;
    if i < a.len() {
        assert(m[i] == a[i]);
        if a[i] != 10 {
            lemma_line_end_within(a, b, i + 1);
        }
    }
}

proof fn lemma_line_end_before_last(a: Seq<u8>, i: int)
    requires
        0 <= i < a.len(),
        a.last() == 10,
    ensures
        line_end(a, i) < a.len(),
    decreases a.len() - i,
{
    if a[i] != 10 && i + 1 < a.len() {
        lemma_line_end_before_last(a, i + 1);
    }
}

proof fn lemma_scan_concat_from(a: Seq<u8>, b: Seq<u8>, key: Seq<u8>, i: int, acc: u32)
    requires
        whole_lines(a),
        0 <= i <= a.len(),
    ensures
        meta_scan(a + b, key, i, acc) == meta_scan(b, key, 0, meta_scan(a, key, i, acc)),
    decreases a.len() - i,
{
    if i == a.len() {
        lemma_scan_shift(a, b, key, 0, acc);
    } else {
        lemma_line_end_before_last(a, i);
        lemma_line_end_within(a, b, i);
        lemma_line_end(a, i);
        let e = line_end(a, i);
        let m = a + b;
        assert(m.subrange(i, e) =~= a.subrange(i, e));
        assert(m[e] == a[e]);
        assert(line_at(m, i) == line_at(a, i));
        let next = match key_value(line_at(a, i), key) {
            Some(v) => v,
            None => acc,
        };
        lemma_scan_concat_from(a, b, key, e + 1, next);
    }
}

/// Scanning whole lines then more: the second part starts from what the
/// first gave.
pub proof fn lemma_scan_concat(a: Seq<u8>, b: Seq<u8>, key: Seq<u8>, acc: u32)
    requires
        whole_lines(a),
    ensures
        meta_scan(a + b, key, 0, acc) == meta_scan(b, key, 0, meta_scan(a, key, 0, acc)),
{
    lemma_scan_concat_from(a, b, key, 0, acc);
}

/// Scanning one line and its line feed.
proof fn lemma_scan_one(line: Seq<u8>, key: Seq<u8>, acc: u32)
    requires
        no_newline(line),
        line.len() == 0 || line.last() != 13,
    ensures
        meta_scan(line + seq![10u8], key, 0, acc) == match key_value(line, key) {
            Some(v) => v,
            None => acc,
        },
{
    lemma_scan_peel(line, Seq::empty(), key, acc);
    assert(line + seq![10u8] + Seq::<u8>::empty() =~= line + seq![10u8]);
}

#[verifier::rlimit(50)]
proof fn lemma_meta_clean(h: AnaHeader)
    requires
        header_writable(h),
    ensures
        forall|i: int|
            0 <= i < 7 ==> no_newline(#[trigger] meta_line(h, i)) && meta_line(h, i).len() > 0
                && meta_line(h, i).last() != 13,
        no_newline(meta_head(h)),
        meta_head(h)[0] == 110,
        meta_head(h).len() == 8,
{
    let t = ana_metadata(h).len();
    let hop = (h.window_len / h.dec_factor) as nat;
    lemma_dec_len(h.sample_rate as nat);
    lemma_dec_len(h.window_len as nat);
    lemma_dec_len(h.dec_factor as nat);
    lemma_fixed5_len(h.sample_rate as nat, hop);
    lemma_metadata_len(h);
    assert(55 <= t <= 255);
    lemma_dec_digits(h.sample_rate as nat);
    lemma_dec_digits(h.window_len as nat);
    lemma_dec_digits(h.dec_factor as nat);
    lemma_fixed5_text(h.sample_rate as nat, hop);
    assert(no_newline(le32_bytes(NOTE_ID)));
    assert(le32_bytes(t as u32) =~= seq![t as u8, 0u8, 0u8, 0u8]);
    assert(no_newline(le32_bytes(t as u32)));
    lemma_no_newline_concat(le32_bytes(NOTE_ID), le32_bytes(t as u32));
    assert(no_newline(text_sampsize()));
    assert(no_newline(key_sample_rate()));
    assert(no_newline(key_arate()));
    assert(no_newline(key_window_len()));
    assert(no_newline(key_dec_factor()));
    assert(no_newline(key_origrate()));
    assert(no_newline(text_date()));
    lemma_no_newline_concat(key_sample_rate(), dec(h.sample_rate as nat));
    lemma_no_newline_concat(key_arate(), fixed5(h.sample_rate as nat, hop));
    lemma_no_newline_concat(key_window_len(), dec(h.window_len as nat));
    lemma_no_newline_concat(key_dec_factor(), dec(h.dec_factor as nat));
    lemma_no_newline_concat(key_origrate(), dec(h.sample_rate as nat));
    assert(meta_line(h, 1).last() == dec(h.sample_rate as nat).last());
    assert(meta_line(h, 2).last() == fixed5(h.sample_rate as nat, hop).last());
    assert(meta_line(h, 3).last() == dec(h.window_len as nat).last());
    assert(meta_line(h, 4).last() == dec(h.dec_factor as nat).last());
    assert(meta_line(h, 5).last() == dec(h.sample_rate as nat).last());
}

/// Scanning the head and lines `0..=k` for `key`, when line `t` alone
/// gives a value `v` for it.
#[verifier::rlimit(50)]
proof fn lemma_scan_prefix(h: AnaHeader, key: Seq<u8>, k: nat, t: int, v: u32, acc: u32)
    requires
        header_writable(h),
        k < 7,
        0 < t < 7,
        key.len() > 0,
        key[0] != 110,
        forall|j: int| 0 <= j < 7 && j != t ==> key_value(#[trigger] meta_line(h, j), key) is None,
        key_value(meta_line(h, t), key) == Some(v),
    ensures
        meta_scan(meta_head(h) + meta_prefix(h, k), key, 0, acc) == if k >= t {
            v
        } else {
            acc
        },
    decreases k,
{
    lemma_meta_clean(h);
    let nl = seq![10u8];
    let line = meta_line(h, k as int);
    if k == 0 {
        let first = meta_head(h) + line;
        assert(meta_head(h) + meta_prefix(h, 0) =~= first + nl);
        lemma_no_newline_concat(meta_head(h), line);
        assert(first.last() == line.last());
        assert(first[0] == 110);
        lemma_key_mismatch(first, key, 0);
        lemma_scan_one(first, key, acc);
    } else {
        let q = meta_head(h) + meta_prefix(h, (k - 1) as nat);
        assert(meta_head(h) + meta_prefix(h, k) =~= q + (line + nl));
        assert(whole_lines(q)) by {
            if k - 1 == 0 {
                assert(meta_prefix(h, 0).last() == 10);
            }
            assert(meta_prefix(h, (k - 1) as nat).last() == 10);
            assert(q.last() == meta_prefix(h, (k - 1) as nat).last());
        }
        lemma_scan_concat(q, line + nl, key, acc);
        lemma_scan_prefix(h, key, (k - 1) as nat, t, v, acc);
        let before = if k - 1 >= t {
            v
        } else {
            acc
        };
        lemma_scan_one(line, key, before);
    }
}

/// The metadata a writer puts out gives back the window length and the
/// overlap factor it was written with.
pub proof fn lemma_meta_values(h: AnaHeader, wl0: u32, df0: u32)
    requires
        header_writable(h),
    ensures
        meta_scan(meta_body(h), key_window_len(), 0, wl0) == h.window_len,
        meta_scan(meta_body(h), key_dec_factor(), 0, df0) == h.dec_factor,
{
    lemma_meta_window_len(h, wl0);
    lemma_meta_dec_factor(h, df0);
}

/// The scan of the whole body is the scan of its lines: the pad byte
/// gives nothing.
proof fn lemma_meta_body_scan(h: AnaHeader, key: Seq<u8>, acc: u32)
    requires
        header_writable(h),
        key.len() > 1,
    ensures
        meta_scan(meta_body(h), key, 0, acc) == meta_scan(
            meta_head(h) + meta_prefix(h, 6),
            key,
            0,
            acc,
        ),
{
    let q = meta_head(h) + meta_prefix(h, 6);
    let p = pad(ana_metadata(h).len());
    assert(meta_body(h) =~= q + p);
    assert(whole_lines(q)) by {
        assert(q.last() == meta_prefix(h, 6).last());
    }
    lemma_scan_concat(q, p, key, acc);
    let x = meta_scan(q, key, 0, acc);
    if p.len() > 0 {
        lemma_line_end(p, 0);
        assert(line_end(p, 0) == 1);
        assert(line_at(p, 0) =~= seq![0u8]);
        assert(key_value(line_at(p, 0), key) is None);
        assert(meta_scan(p, key, 2, x) == x);
    }
    assert(meta_scan(p, key, 0, x) == x);
}

proof fn lemma_meta_window_len(h: AnaHeader, acc: u32)
    requires
        header_writable(h),
    ensures
        meta_scan(meta_body(h), key_window_len(), 0, acc) == h.window_len,
{
    lemma_meta_clean(h);
    let kw = key_window_len();
    lemma_key_line(kw, h.window_len as nat);
    lemma_key_mismatch(meta_line(h, 0), kw, 0);
    lemma_key_mismatch(meta_line(h, 1), kw, 0);
    lemma_key_mismatch(meta_line(h, 2), kw, 1);
    lemma_key_mismatch(meta_line(h, 4), kw, 0);
    lemma_key_mismatch(meta_line(h, 5), kw, 0);
    lemma_key_mismatch(meta_line(h, 6), kw, 0);
    assert forall|j: int| 0 <= j < 7 && j != 3 implies key_value(#[trigger] meta_line(h, j), kw)
        is None by {}
    lemma_scan_prefix(h, kw, 6, 3, h.window_len, acc);
    lemma_meta_body_scan(h, kw, acc);
}

proof fn lemma_meta_dec_factor(h: AnaHeader, acc: u32)
    requires
        header_writable(h),
    ensures
        meta_scan(meta_body(h), key_dec_factor(), 0, acc) == h.dec_factor,
{
    lemma_meta_clean(h);
    let kd = key_dec_factor();
    lemma_key_line(kd, h.dec_factor as nat);
    lemma_key_mismatch(meta_line(h, 0), kd, 0);
    lemma_key_mismatch(meta_line(h, 1), kd, 0);
    lemma_key_mismatch(meta_line(h, 2), kd, 0);
    lemma_key_mismatch(meta_line(h, 3), kd, 0);
    lemma_key_mismatch(meta_line(h, 5), kd, 0);
    lemma_key_mismatch(meta_line(h, 6), kd, 0);
    assert forall|j: int| 0 <= j < 7 && j != 4 implies key_value(#[trigger] meta_line(h, j), kd)
        is None by {}
    lemma_scan_prefix(h, kd, 6, 4, h.dec_factor, acc);
    lemma_meta_body_scan(h, kd, acc);
}


/// The bytes of words hold each word at four times its index.
pub proof fn lemma_words_bytes(w: Seq<u32>)
    ensures
        words_bytes(w).len() == 4 * w.len(),
        forall|k: int| 0 <= k < w.len() ==> #[trigger] u32_at(words_bytes(w), 4 * k) == w[k],
    decreases w.len(),
{
    if w.len() > 0 {
        let v = w.drop_last();
        lemma_words_bytes(v);
        let b = words_bytes(w);
        assert forall|k: int| 0 <= k < w.len() implies #[trigger] u32_at(b, 4 * k) == w[k] by {
            if k < v.len() {
                assert(u32_at(words_bytes(v), 4 * k) == v[k]);
                assert(b[4 * k] == words_bytes(v)[4 * k]);
                assert(b[4 * k + 1] == words_bytes(v)[4 * k + 1]);
                assert(b[4 * k + 2] == words_bytes(v)[4 * k + 2]);
                assert(b[4 * k + 3] == words_bytes(v)[4 * k + 3]);
            } else {
                lemma_le32_round_trip(w.last());
                assert(b.subrange(4 * k, 4 * k + 4) =~= le32_bytes(w.last()));
                assert(b.subrange(0, b.len() as int) =~= b);
                lemma_u32_in(b, 0, b, 4 * k, w.last());
            }
        }
    }
}

/// The metadata text is between 55 and 255 bytes long.
#[verifier::rlimit(100)]
#[verifier::spinoff_prover]
pub proof fn lemma_metadata_len(h: AnaHeader)
    requires
        header_writable(h),
    ensures
        55 <= ana_metadata(h).len() <= 255,
{
    lemma_dec_len(h.sample_rate as nat);
    lemma_dec_len(h.window_len as nat);
    lemma_dec_len(h.dec_factor as nat);
    lemma_fixed5_len(h.sample_rate as nat, (h.window_len / h.dec_factor) as nat);
    reveal_with_fuel(meta_prefix, 7);
}

/// The pieces of a written file: the RIFF header, the `fmt ` chunk, the
/// `LIST` chunk and the `data` chunk, where they stand.
#[verifier::rlimit(80)]
proof fn lemma_ana_pieces(h: AnaHeader, w: Seq<u32>)
    requires
        header_writable(h),
        w.len() <= MAX_VALUES,
    ensures
        ({
            let s = ana_bytes(h, w);
            let text = ana_metadata(h);
            let l = list_size(text) as int;
            let n = w.len() as int;
            &&& text.len() <= 255
            &&& l % 2 == 0
            &&& s.len() == 52 + l + 4 * n
            &&& s.subrange(12, 36) == fmt_chunk(h)
            &&& s.subrange(36, 44 + l) == list_chunk(text)
            &&& s.subrange(44 + l, s.len() as int) == data_chunk(w)
            &&& u32_at(s, 0) == RIFF_ID as nat
            &&& u32_at(s, 8) == WAVE_ID as nat
        }),
{
    let text = ana_metadata(h);
    lemma_metadata_len(h);
    let l = list_size(text) as int;
    let n = w.len() as int;
    let s = ana_bytes(h, w);
    let riff_size = 4 + 24 + 8 + l + 8 + 4 * n;
    let a = le32_bytes(RIFF_ID) + le32_bytes(riff_size as u32) + le32_bytes(WAVE_ID);
    let f = fmt_chunk(h);
    let lc = list_chunk(text);
    let d = data_chunk(w);
    lemma_words_bytes(w);
    assert(a.len() == 12);
    assert(f.len() == 24);
    assert(lc.len() == 8 + l);
    assert(d.len() == 8 + 4 * n);
    let af = a + f;
    let x = af + lc;
    assert(s == x + d);
    assert(s.subrange(0, 44 + l) =~= x);
    assert(s.subrange(44 + l, s.len() as int) =~= d);
    assert(x.subrange(0, 36) =~= af);
    assert(x.subrange(36, 44 + l) =~= lc);
    assert(af.subrange(0, 12) =~= a);
    assert(af.subrange(12, 36) =~= f);
    assert(s.subrange(36, 44 + l) =~= x.subrange(36, 44 + l));
    assert(s.subrange(12, 36) =~= af.subrange(12, 36));
    assert(s.subrange(0, 12) =~= a);
    assert(a.subrange(0, 4) =~= le32_bytes(RIFF_ID));
    assert(a.subrange(8, 12) =~= le32_bytes(WAVE_ID));
    lemma_u32_in(s, 0, a, 0, RIFF_ID);
    lemma_u32_in(s, 0, a, 8, WAVE_ID);
}

/// The fields of the `fmt ` and `LIST` chunks of a written file.
#[verifier::rlimit(50)]
proof fn lemma_ana_fields(h: AnaHeader, w: Seq<u32>)
    requires
        header_writable(h),
        w.len() <= MAX_VALUES,
    ensures
        ({
            let s = ana_bytes(h, w);
            let text = ana_metadata(h);
            let l = list_size(text) as int;
            &&& u32_at(s, 12) == FMT_ID as nat
            &&& u32_at(s, 16) == 16
            &&& u16_at(s, 20) == 3
            &&& u16_at(s, 22) == h.channels as nat
            &&& u32_at(s, 24) == h.sample_rate as nat
            &&& u32_at(s, 36) == LIST_ID as nat
            &&& u32_at(s, 40) == l
            &&& u32_at(s, 44) == ADTL_ID as nat
            &&& s.subrange(48, 44 + l) == meta_body(h)
        }),
{
    lemma_ana_pieces(h, w);
    let s = ana_bytes(h, w);
    let text = ana_metadata(h);
    let l = list_size(text) as int;
    let f = fmt_chunk(h);
    let lc = list_chunk(text);
    assert(f.subrange(0, 4) =~= le32_bytes(FMT_ID));
    assert(f.subrange(4, 8) =~= le32_bytes(16));
    assert(f.subrange(8, 10) =~= le16_bytes(3));
    assert(f.subrange(10, 12) =~= le16_bytes(h.channels));
    assert(f.subrange(12, 16) =~= le32_bytes(h.sample_rate));
    lemma_u32_in(s, 12, f, 0, FMT_ID);
    lemma_u32_in(s, 12, f, 4, 16);
    lemma_u16_in(s, 12, f, 8, 3);
    lemma_u16_in(s, 12, f, 10, h.channels);
    lemma_u32_in(s, 12, f, 12, h.sample_rate);
    assert(lc.subrange(0, 4) =~= le32_bytes(LIST_ID));
    assert(lc.subrange(4, 8) =~= le32_bytes(l as u32));
    assert(lc.subrange(8, 12) =~= le32_bytes(ADTL_ID));
    lemma_u32_in(s, 36, lc, 0, LIST_ID);
    lemma_u32_in(s, 36, lc, 4, l as u32);
    lemma_u32_in(s, 36, lc, 8, ADTL_ID);
    assert(s.subrange(48, 44 + l) =~= lc.subrange(12, 8 + l));
    assert(lc.subrange(12, 8 + l) =~= meta_body(h));
}

/// The `data` chunk of a written file: its header and its values.
#[verifier::rlimit(50)]
proof fn lemma_ana_data(h: AnaHeader, w: Seq<u32>)
    requires
        header_writable(h),
        w.len() <= MAX_VALUES,
    ensures
        ({
            let s = ana_bytes(h, w);
            let l = list_size(ana_metadata(h)) as int;
            let n = w.len() as int;
            &&& u32_at(s, 44 + l) == DATA_ID as nat
            &&& u32_at(s, 48 + l) == 4 * n
            &&& words_at(s, 52 + l, n as nat) == w
        }),
{
    lemma_ana_pieces(h, w);
    lemma_words_bytes(w);
    let s = ana_bytes(h, w);
    let l = list_size(ana_metadata(h)) as int;
    let n = w.len() as int;
    let d = data_chunk(w);
    assert(d.subrange(0, 4) =~= le32_bytes(DATA_ID));
    assert(d.subrange(4, 8) =~= le32_bytes((4 * n) as u32));
    lemma_u32_in(s, 44 + l, d, 0, DATA_ID);
    lemma_u32_in(s, 44 + l, d, 4, (4 * n) as u32);
    let wb = words_bytes(w);
    assert(s.subrange(52 + l, s.len() as int) =~= wb);
    assert forall|k: int| 0 <= k < n implies #[trigger] words_at(s, 52 + l, n as nat)[k] == w[k] by {
        assert(u32_at(wb, 4 * k) == w[k]);
        assert(s[52 + l + 4 * k] == wb[4 * k]);
        assert(s[52 + l + 4 * k + 1] == wb[4 * k + 1]);
        assert(s[52 + l + 4 * k + 2] == wb[4 * k + 2]);
        assert(s[52 + l + 4 * k + 3] == wb[4 * k + 3]);
    }
    assert(words_at(s, 52 + l, n as nat) =~= w);
}

/// Reading what the writer wrote gives back the header and the values:
/// the `.ana` container keeps every field and every value bit for bit.
/// The header must be consistent (its frame length the one its window
/// length gives), and the values must be whole frames of real/imaginary
/// pairs.
#[verifier::rlimit(50)]
pub proof fn lemma_ana_round_trip(h: AnaHeader, w: Seq<u32>)
    requires
        header_writable(h),
        h.channels as int == (h.window_len as int / 2 + 1) * 2,
        w.len() <= MAX_VALUES,
        w.len() % 2 == 0,
        w.len() % (h.channels as nat) == 0,
    ensures
        ana_read(ana_bytes(h, w)) == Ok::<(AnaHeader, Seq<u32>), crate::ana::ReadFault>((h, w)),
{
    lemma_ana_pieces(h, w);
    lemma_ana_fields(h, w);
    lemma_ana_data(h, w);
    lemma_meta_values(h, 0, 4);
    let s = ana_bytes(h, w);
    let l = list_size(ana_metadata(h)) as int;
    let n = w.len() as int;
    let h1 = chunk_update(s, 12, initial_header());
    assert(chunk_fault(s, 12) is None);
    assert(h1 == AnaHeader {
        sample_rate: h.sample_rate,
        channels: h.channels,
        window_len: 0,
        dec_factor: 4,
    });
    assert(walk(s, 12, initial_header()) == walk(s, 36, h1));
    assert(chunk_fault(s, 36) is None);
    let h2 = chunk_update(s, 36, h1);
    assert(h2 == h);
    assert(walk(s, 36, h1) == walk(s, 44 + l, h2));
    assert(walk(s, 44 + l, h2) == Ok::<(AnaHeader, int, int), crate::ana::ReadFault>(
        (h, 52 + l, 4 * n),
    ));
    assert((4 * n) / 4 == n);
}

} // verus!
