//! The chunk structure of RIFF/WAVE files, and the comparison of two
//! such files chunk by chunk, leaving out the time stamp of `PEAK`.
use vstd::prelude::*;
use crate::bytes::{read_u32, u32_at, CUE_ID, DATA_ID, FMT_ID, LIST_ID, PEAK_ID};
use crate::wav::HousekeepError;

verus! {

/// A chunk of a RIFF file.
#[derive(Debug, Clone, Copy, PartialEq, Eq)]
pub struct WavChunk {
    /// The chunk identifier, the little-endian `u32` of its four characters.
    pub id: u32,
    /// The size of the chunk body.
    pub size: u32,
    /// Where the chunk body starts.
    pub offset: usize,
}

/// The chunks from `pos` on: each chunk header (identifier and size)
/// that the bytes hold in full, the next one following the body and, for
/// an odd size, a pad byte.
pub open spec fn chunks_from(s: Seq<u8>, pos: int) -> Seq<WavChunk>
    decreases s.len() + 1 - pos,
{
    if pos < 0 || pos + 8 > s.len() {
        Seq::empty()
    } else {
        let size = u32_at(s, pos + 4);
        let c = WavChunk { id: u32_at(s, pos) as u32, size: size as u32, offset: (pos + 8) as usize };
        let next = pos + 8 + size + size % 2;
        if next > s.len() {
            seq![c]
        } else {
            seq![c] + chunks_from(s, next)
        }
    }
}

/// Lists the chunks of a RIFF file, after its 12-byte header.
#[verifier::rlimit(40)]
pub fn read_chunks(s: &[u8]) -> (r: Result<Vec<WavChunk>, HousekeepError>)
    ensures
        s@.len() < 12 <==> r is Err,
        r is Err ==> r->Err_0 is Io,
        r is Ok ==> r->Ok_0@ == chunks_from(s@, 12),
{
    let len = s.len();
    if len < 12 {
        return Err(HousekeepError::Io(String::from_str("failed to fill whole buffer")));
    }
    let mut chunks: Vec<WavChunk> = Vec::new();
    let mut pos: usize = 12;
    loop
        invariant
            len == s@.len(),
            12 <= len,
            pos <= len,
            chunks@ + chunks_from(s@, pos as int) == chunks_from(s@, 12),
        decreases len - pos,
    {
        if len - pos < 8 {
            assert(chunks@ + chunks_from(s@, pos as int) =~= chunks@);
            return Ok(chunks);
        }
        let id = read_u32(s, pos);
        let size = read_u32(s, pos + 4);
        let c = WavChunk { id, size, offset: pos + 8 };
        let ghost before = chunks@;
        chunks.push(c);
        let step = size as u64 + (size % 2) as u64;
        if step > (len - pos - 8) as u64 {
            assert(chunks@ =~= before + chunks_from(s@, pos as int));
            return Ok(chunks);
        }
        assert(chunks@ + chunks_from(s@, (pos + 8 + step) as int) =~= before + chunks_from(
            s@,
            pos as int,
        ));
        pos = pos + 8 + step as usize;
    }
}

/// Whether some chunk of `c` has identifier `id`.
pub open spec fn has_id(c: Seq<WavChunk>, id: u32) -> bool {
    exists|i: int| 0 <= i < c.len() && (#[trigger] c[i]).id == id
}

/// Finds the first chunk with identifier `id`.
pub fn find_chunk(chunks: &Vec<WavChunk>, id: u32) -> (r: Option<usize>)
    ensures
        r is None <==> !has_id(chunks@, id),
        r is Some ==> r->Some_0 < chunks@.len() && chunks@[r->Some_0 as int].id == id && forall|
            j: int,
        | 0 <= j < r->Some_0 ==> (#[trigger] chunks@[j]).id != id,
{
    let mut i: usize = 0;
    while i < chunks.len()
        invariant
            i <= chunks@.len(),
            forall|j: int| 0 <= j < i ==> (#[trigger] chunks@[j]).id != id,
        decreases chunks@.len() - i,
    {
        if chunks[i].id == id {
            return Some(i);
        }
        i += 1;
    }
    None
}

/// How many chunks of `c` have identifier `x`.
pub open spec fn id_count(c: Seq<WavChunk>, x: u32) -> nat
    decreases c.len(),
{
    if c.len() == 0 {
        0
    } else {
        id_count(c.drop_last(), x) + if c.last().id == x {
            1nat
        } else {
            0nat
        }
    }
}

proof fn lemma_id_count_absent(c: Seq<WavChunk>, x: u32)
    requires
        !has_id(c, x),
    ensures
        id_count(c, x) == 0,
    decreases c.len(),
{
    if c.len() > 0 {
        assert forall|i: int| 0 <= i < c.drop_last().len() implies (#[trigger] c.drop_last()[i]).id
            != x by {
            assert(c.drop_last()[i] == c[i]);
        }
        assert(c.last() == c[c.len() - 1]);
        lemma_id_count_absent(c.drop_last(), x);
    }
}

fn count_id(c: &Vec<WavChunk>, x: u32) -> (r: usize)
    ensures
        r == id_count(c@, x),
{
    let mut n: usize = 0;
    let mut i: usize = 0;
    while i < c.len()
        invariant
            i <= c@.len(),
            n == id_count(c@.subrange(0, i as int), x),
            n <= i,
        decreases c@.len() - i,
    {
        assert(c@.subrange(0, i + 1).drop_last() =~= c@.subrange(0, i as int));
        if c[i].id == x {
            n += 1;
        }
        i += 1;
    }
    assert(c@.subrange(0, i as int) =~= c@);
    n
}

/// Whether every identifier of `a` occurs as often in `b`.
fn counts_agree(a: &Vec<WavChunk>, b: &Vec<WavChunk>) -> (r: bool)
    ensures
        r == forall|i: int| 0 <= i < a@.len() ==> id_count(a@, (#[trigger] a@[i]).id) == id_count(
            b@,
            a@[i].id,
        ),
{
    let mut i: usize = 0;
    while i < a.len()
        invariant
            i <= a@.len(),
            forall|j: int| 0 <= j < i ==> id_count(a@, (#[trigger] a@[j]).id) == id_count(
                b@,
                a@[j].id,
            ),
        decreases a@.len() - i,
    {
        if count_id(a, a[i].id) != count_id(b, a[i].id) {
            return false;
        }
        i += 1;
    }
    true
}

/// Whether the two files hold the same chunk identifiers, each as many
/// times, in whatever order.
#[verifier::rlimit(40)]
pub fn have_same_chunk_types(chunks1: &Vec<WavChunk>, chunks2: &Vec<WavChunk>) -> (r: bool)
    ensures
        r == forall|x: u32| id_count(chunks1@, x) == id_count(chunks2@, x),
{
    let ab = counts_agree(chunks1, chunks2);
    let ba = counts_agree(chunks2, chunks1);
    proof {
        if ab && ba {
            assert forall|x: u32| id_count(chunks1@, x) == id_count(chunks2@, x) by {
                if has_id(chunks1@, x) {
                    let i = choose|i: int| 0 <= i < chunks1@.len() && (#[trigger] chunks1@[i]).id == x;
                } else if has_id(chunks2@, x) {
                    let i = choose|i: int| 0 <= i < chunks2@.len() && (#[trigger] chunks2@[i]).id == x;
                } else {
                    lemma_id_count_absent(chunks1@, x);
                    lemma_id_count_absent(chunks2@, x);
                }
            }
        }
    }
    ab && ba
}

/// Whether `a[a_at..a_at + n]` equals `b[b_at..b_at + n]`.
fn same_bytes(a: &[u8], a_at: usize, b: &[u8], b_at: usize, n: usize) -> (r: bool)
    requires
        a_at + n <= a@.len(),
        b_at + n <= b@.len(),
    ensures
        r == (a@.subrange(a_at as int, a_at + n) == b@.subrange(b_at as int, b_at + n)),
{
    let alen = a.len();
    let blen = b.len();
    let mut i: usize = 0;
    while i < n
        invariant
            i <= n,
            alen == a@.len(),
            blen == b@.len(),
            a_at + n <= a@.len(),
            b_at + n <= b@.len(),
            a@.subrange(a_at as int, a_at + i) == b@.subrange(b_at as int, b_at + i),
        decreases n - i,
    {
        if a[a_at + i] != b[b_at + i] {
            assert(a@.subrange(a_at as int, a_at + n)[i as int] != b@.subrange(
                b_at as int,
                b_at + n,
            )[i as int]);
            return false;
        }
        assert(a@.subrange(a_at as int, a_at + i + 1) =~= a@.subrange(a_at as int, a_at + i).push(
            a@[a_at + i],
        ));
        assert(b@.subrange(b_at as int, b_at + i + 1) =~= b@.subrange(b_at as int, b_at + i).push(
            b@[b_at + i],
        ));
        i += 1;
    }
    true
}

/// Whether the body of chunk `c` lies within `s`.
pub open spec fn body_in(s: Seq<u8>, c: WavChunk) -> bool {
    c.offset + c.size <= s.len()
}

/// The body of chunk `c`.
pub open spec fn body_of(s: Seq<u8>, c: WavChunk) -> Seq<u8> {
    s.subrange(c.offset as int, c.offset + c.size)
}

/// Whether two chunks have equal bodies (the same size and bytes).
pub fn same_body(s1: &[u8], c1: WavChunk, s2: &[u8], c2: WavChunk) -> (r: Result<bool, HousekeepError>)
    ensures
        r is Err <==> c1.size == c2.size && !(body_in(s1@, c1) && body_in(s2@, c2)),
        r is Err ==> r->Err_0 is Io,
        r is Ok ==> r->Ok_0 == (c1.size == c2.size && body_of(s1@, c1) == body_of(s2@, c2)),
{
    if c1.size != c2.size {
        return Ok(false);
    }
    let n = c1.size as usize;
    if c1.offset > s1.len() || n > s1.len() - c1.offset || c2.offset > s2.len() || n > s2.len()
        - c2.offset {
        return Err(HousekeepError::Io(String::from_str("failed to fill whole buffer")));
    }
    Ok(same_bytes(s1, c1.offset, s2, c2.offset, n))
}

/// Whether two `PEAK` chunks agree but for their time stamps (bytes 4 to
/// 8): the same size, the same version, the same peak data.
pub open spec fn same_peak(s1: Seq<u8>, c1: WavChunk, s2: Seq<u8>, c2: WavChunk) -> bool {
    let b1 = body_of(s1, c1);
    let b2 = body_of(s2, c2);
    c1.size == c2.size && c1.size >= 8 && b1.subrange(0, 4) == b2.subrange(0, 4) && b1.subrange(
        8,
        b1.len() as int,
    ) == b2.subrange(8, b2.len() as int)
}

/// Compares two `PEAK` chunks, leaving out their time stamps.
pub fn same_peak_body(s1: &[u8], c1: WavChunk, s2: &[u8], c2: WavChunk) -> (r: Result<
    bool,
    HousekeepError,
>)
    ensures
        r is Err <==> c1.size == c2.size && !(body_in(s1@, c1) && body_in(s2@, c2)),
        r is Err ==> r->Err_0 is Io,
        r is Ok ==> r->Ok_0 == same_peak(s1@, c1, s2@, c2),
{
    if c1.size != c2.size {
        return Ok(false);
    }
    let n = c1.size as usize;
    if c1.offset > s1.len() || n > s1.len() - c1.offset || c2.offset > s2.len() || n > s2.len()
        - c2.offset {
        return Err(HousekeepError::Io(String::from_str("failed to fill whole buffer")));
    }
    if n < 8 {
        return Ok(false);
    }
    let v = same_bytes(s1, c1.offset, s2, c2.offset, 4);
    let d = same_bytes(s1, c1.offset + 8, s2, c2.offset + 8, n - 8);
    proof {
        let b1 = body_of(s1@, c1);
        let b2 = body_of(s2@, c2);
        assert(b1.subrange(0, 4) =~= s1@.subrange(c1.offset as int, c1.offset + 4));
        assert(b2.subrange(0, 4) =~= s2@.subrange(c2.offset as int, c2.offset + 4));
        assert(b1.subrange(8, b1.len() as int) =~= s1@.subrange(c1.offset + 8, c1.offset + n));
        assert(b2.subrange(8, b2.len() as int) =~= s2@.subrange(c2.offset + 8, c2.offset + n));
    }
    Ok(v && d)
}

/// The outcome of comparing two sound files.
#[derive(Debug, Clone, PartialEq, Eq)]
pub struct WavComparison {
    pub format_matches: bool,
    pub data_matches: bool,
    /// The `PEAK` chunks agree, time stamps left out.
    pub peak_matches: bool,
    pub chunks_match: bool,
    /// One line for each difference found.
    pub details: String,
}

/// The chunk of `c` with identifier `id` that a comparison looks at: the
/// first one.
pub open spec fn first_with(c: Seq<WavChunk>, id: u32) -> WavChunk
    recommends
        has_id(c, id),
{
    let i = choose|i: int|
        0 <= i < c.len() && c[i].id == id && forall|j: int| 0 <= j < i ==> (#[trigger] c[j]).id
            != id;
    c[i]
}

proof fn lemma_first_with(c: Seq<WavChunk>, id: u32, k: int)
    requires
        0 <= k < c.len(),
        c[k].id == id,
        forall|j: int| 0 <= j < k ==> (#[trigger] c[j]).id != id,
    ensures
        first_with(c, id) == c[k],
{
    let i = choose|i: int|
        0 <= i < c.len() && c[i].id == id && forall|j: int| 0 <= j < i ==> (#[trigger] c[j]).id
            != id;
    if i < k {
        assert(c[i].id != id);
    } else if i > k {
        assert(c[k].id != id);
    }
}

/// Compares the chunks with identifier `id` of two files: `None` when one
/// of them has none.
fn compare_first(
    s1: &[u8],
    c1: &Vec<WavChunk>,
    s2: &[u8],
    c2: &Vec<WavChunk>,
    id: u32,
    peak: bool,
) -> (r: Result<Option<bool>, HousekeepError>)
    ensures
        !(has_id(c1@, id) && has_id(c2@, id)) ==> r == Ok::<Option<bool>, HousekeepError>(None),
        has_id(c1@, id) && has_id(c2@, id) ==> ({
            let a = first_with(c1@, id);
            let b = first_with(c2@, id);
            &&& r is Err <==> a.size == b.size && !(body_in(s1@, a) && body_in(s2@, b))
            &&& r is Err ==> r->Err_0 is Io
            &&& r is Ok ==> r->Ok_0 == Some(
                if peak {
                    same_peak(s1@, a, s2@, b)
                } else {
                    a.size == b.size && body_of(s1@, a) == body_of(s2@, b)
                },
            )
        }),
{
    let i1 = find_chunk(c1, id);
    let i2 = find_chunk(c2, id);
    match (i1, i2) {
        (Some(i), Some(j)) => {
            proof {
                lemma_first_with(c1@, id, i as int);
                lemma_first_with(c2@, id, j as int);
            }
            let r = if peak {
                same_peak_body(s1, c1[i], s2, c2[j])
            } else {
                same_body(s1, c1[i], s2, c2[j])
            };
            match r {
                Ok(b) => Ok(Some(b)),
                Err(e) => Err(e),
            }
        },
        _ => Ok(None),
    }
}

/// Whether both files have a chunk `id` whose first instances have the
/// same size, while one of their bodies runs past the end of its file:
/// then the bodies cannot be compared.
pub open spec fn body_cut(s1: Seq<u8>, s2: Seq<u8>, id: u32) -> bool {
    let c1 = chunks_from(s1, 12);
    let c2 = chunks_from(s2, 12);
    has_id(c1, id) && has_id(c2, id) && first_with(c1, id).size == first_with(c2, id).size && !(
    body_in(s1, first_with(c1, id)) && body_in(s2, first_with(c2, id)))
}

/// Compares two sound files by their chunks: whether they hold the same
/// chunk types, equal `fmt ` and `data` chunks, and `PEAK` chunks that
/// agree but for the time stamp. Where a file lacks a chunk, that part
/// counts as differing.
#[verifier::rlimit(40)]
pub fn compare_wav_files(s1: &[u8], s2: &[u8]) -> (r: Result<WavComparison, HousekeepError>)
    ensures
        r is Ok <==> (s1@.len() >= 12 && s2@.len() >= 12 && !body_cut(s1@, s2@, FMT_ID)
            && !body_cut(s1@, s2@, DATA_ID) && !body_cut(s1@, s2@, PEAK_ID)),
        r is Err ==> r->Err_0 is Io,
        r is Ok ==> ({
            let c1 = chunks_from(s1@, 12);
            let c2 = chunks_from(s2@, 12);
            let both = |id: u32| has_id(c1, id) && has_id(c2, id);
            &&& r->Ok_0.chunks_match == forall|x: u32| id_count(c1, x) == id_count(c2, x)
            &&& r->Ok_0.format_matches == (both(FMT_ID) && first_with(c1, FMT_ID).size
                == first_with(c2, FMT_ID).size && body_of(s1@, first_with(c1, FMT_ID)) == body_of(
                s2@,
                first_with(c2, FMT_ID),
            ))
            &&& r->Ok_0.data_matches == (both(DATA_ID) && first_with(c1, DATA_ID).size
                == first_with(c2, DATA_ID).size && body_of(s1@, first_with(c1, DATA_ID))
                == body_of(s2@, first_with(c2, DATA_ID)))
            &&& r->Ok_0.peak_matches == (both(PEAK_ID) && same_peak(
                s1@,
                first_with(c1, PEAK_ID),
                s2@,
                first_with(c2, PEAK_ID),
            ))
        }),
{
    let c1 = read_chunks(s1)?;
    let c2 = read_chunks(s2)?;
    let mut details = String::new();
    let chunks_match = have_same_chunk_types(&c1, &c2);
    if !chunks_match {
        details.append("Different chunk types present\n");
    }
    let format_matches = match compare_first(s1, &c1, s2, &c2, FMT_ID, false)? {
        Some(b) => {
            if !b {
                details.append("Format chunks differ\n");
            }
            b
        },
        None => false,
    };
    let data_matches = match compare_first(s1, &c1, s2, &c2, DATA_ID, false)? {
        Some(b) => {
            if !b {
                details.append("Audio data differs\n");
            }
            b
        },
        None => false,
    };
    let peak_matches = match compare_first(s1, &c1, s2, &c2, PEAK_ID, true)? {
        Some(b) => {
            if !b {
                details.append("PEAK values differ (not timestamp)\n");
            }
            b
        },
        None => {
            if find_chunk(&c1, PEAK_ID).is_some() || find_chunk(&c2, PEAK_ID).is_some() {
                details.append("One file missing PEAK chunk\n");
            }
            false
        },
    };
    if details.as_str().len() == 0 {
        details = String::from_str("Files match (ignoring timestamps)");
    }
    Ok(WavComparison { format_matches, data_matches, peak_matches, chunks_match, details })
}

/// Whether a file carries the marker chunks `PEAK`, `cue ` and `LIST`.
pub fn has_cdp_format(s: &[u8]) -> (r: Result<bool, HousekeepError>)
    ensures
        s@.len() < 12 <==> r is Err,
        r is Ok ==> r->Ok_0 == (has_id(chunks_from(s@, 12), PEAK_ID) && has_id(
            chunks_from(s@, 12),
            CUE_ID,
        ) && has_id(chunks_from(s@, 12), LIST_ID)),
{
    let chunks = read_chunks(s)?;
    let p = find_chunk(&chunks, PEAK_ID).is_some();
    let c = find_chunk(&chunks, CUE_ID).is_some();
    let l = find_chunk(&chunks, LIST_ID).is_some();
    Ok(p && c && l)
}

} // verus!
