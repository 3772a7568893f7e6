//! ASCII text inside binary containers: decimal numbers, written and
//! read back, and fixed-point decimals.
use vstd::prelude::*;

verus! {

/// The decimal digits of `n`, most significant first.
pub open spec fn dec(n: nat) -> Seq<u8>
    decreases n,
{
    if n < 10 {
        seq![(48 + n) as u8]
    } else {
        dec(n / 10).push((48 + n % 10) as u8)
    }
}

/// `10` to the power `k`.
pub open spec fn pow10(k: nat) -> nat
    decreases k,
{
    if k == 0 {
        1
    } else {
        10 * pow10((k - 1) as nat)
    }
}

/// A number below `10^k` has at most `k` digits.
pub proof fn lemma_dec_len_below(n: nat, k: nat)
    requires
        k >= 1,
        n < pow10(k),
    ensures
        dec(n).len() <= k,
    decreases n,
{
    if n >= 10 {
        let k1 = (k - 1) as nat;
        if k1 == 0 {
            assert(pow10(1) == 10 * pow10(0));
        }
        assert(k1 >= 1);
        assert(n / 10 < pow10(k1)) by (nonlinear_arith)
            requires
                n < 10 * pow10(k1),
        ;
        lemma_dec_len_below(n / 10, k1);
    }
}

/// A `u32` has at most ten digits, and every number has at least one.
pub proof fn lemma_dec_len(n: nat)
    ensures
        dec(n).len() >= 1,
        n <= u32::MAX ==> dec(n).len() <= 10,
    decreases n,
{
    if n >= 10 {
        lemma_dec_len(n / 10);
    }
    if n <= u32::MAX {
        assert(pow10(10) == 10000000000) by {
            reveal_with_fuel(pow10, 11);
        }
        lemma_dec_len_below(n, 10);
    }
}

/// Appends the decimal digits of `n`.
pub fn push_dec(out: &mut Vec<u8>, n: u64)
    ensures
        final(out)@ == old(out)@ + dec(n as nat),
    decreases n,
{
    if n >= 10 {
        push_dec(out, n / 10);
    }
    out.push((48 + n % 10) as u8);
    assert(final(out)@ =~= old(out)@ + dec(n as nat));
}

/// Whether `c` is an ASCII digit.
pub open spec fn is_digit(c: u8) -> bool {
    48 <= c <= 57
}

/// The value of a sequence of decimal digits.
pub open spec fn digits_value(d: Seq<u8>) -> nat
    decreases d.len(),
{
    if d.len() == 0 {
        0
    } else {
        digits_value(d.drop_last()) * 10 + (d.last() - 48) as nat
    }
}

/// Whether `d` is one or more decimal digits.
pub open spec fn all_digits(d: Seq<u8>) -> bool {
    d.len() > 0 && forall|i: int| 0 <= i < d.len() ==> is_digit(#[trigger] d[i])
}

/// The value of the digits `d` when they are one or more digits with a
/// value of at most `limit`.
pub open spec fn digits_upto(d: Seq<u8>, limit: nat) -> Option<nat> {
    if all_digits(d) && digits_value(d) <= limit {
        Some(digits_value(d))
    } else {
        None
    }
}

/// Reads the digits `s[from..to]` as a number of at most `limit`.
#[verifier::rlimit(40)]
pub fn parse_digits(s: &[u8], from: usize, to: usize, limit: u64) -> (r: Option<u64>)
    requires
        from <= to <= s@.len(),
        limit <= u32::MAX,
    ensures
        match digits_upto(s@.subrange(from as int, to as int), limit as nat) {
            Some(v) => r == Some(v as u64),
            None => r is None,
        },
{
    let ghost d = s@.subrange(from as int, to as int);
    if from == to {
        return None;
    }
    let mut v: u64 = 0;
    let mut i: usize = from;
    let mut over = false;
    while i < to
        invariant
            from <= i <= to <= s@.len(),
            limit <= u32::MAX,
            d == s@.subrange(from as int, to as int),
            forall|k: int| 0 <= k < i - from ==> is_digit(#[trigger] d[k]),
            !over ==> v == digits_value(d.subrange(0, i - from)) && v <= limit,
            over ==> digits_value(d.subrange(0, i - from)) > limit,
        decreases to - i,
    {
        let c = s[i];
        if c < 48 || c > 57 {
            assert(!is_digit(d[i - from]));
            return None;
        }
        let ghost p = d.subrange(0, i - from);
        let ghost q = d.subrange(0, i - from + 1);
        assert(q.drop_last() =~= p);
        assert(digits_value(q) == digits_value(p) * 10 + (c - 48) as nat);
        if !over {
            v = v * 10 + (c - 48) as u64;
            if v > limit {
                over = true;
            }
        }
        i += 1;
    }
    assert(d.subrange(0, i - from) =~= d);
    if over {
        None
    } else {
        Some(v)
    }
}

/// The `u32` that `t` spells out in the way `str::parse::<u32>` reads
/// it: an optional `+`, then one or more digits, with a value that fits.
pub open spec fn parse_u32_spec(t: Seq<u8>) -> Option<u32> {
    let d = if t.len() > 0 && t[0] == 43 {
        t.drop_first()
    } else {
        t
    };
    match digits_upto(d, u32::MAX as nat) {
        Some(v) => Some(v as u32),
        None => None,
    }
}

/// Reads the `u32` spelled out by `s[from..to]`.
pub fn parse_u32(s: &[u8], from: usize, to: usize) -> (r: Option<u32>)
    requires
        from <= to <= s@.len(),
    ensures
        r == parse_u32_spec(s@.subrange(from as int, to as int)),
{
    let start = if from < to && s[from] == 43 {
        from + 1
    } else {
        from
    };
    assert(s@.subrange(start as int, to as int) =~= (if from < to && s@[from as int] == 43 {
        s@.subrange(from as int, to as int).drop_first()
    } else {
        s@.subrange(from as int, to as int)
    }));
    match parse_digits(s, start, to, 0xffff_ffff) {
        Some(v) => Some(v as u32),
        None => None,
    }
}

/// The `i32` that `t` spells out in the way `str::parse::<i32>` reads
/// it: an optional sign, then one or more digits, with a value that fits.
pub open spec fn parse_i32_spec(t: Seq<u8>) -> Option<i32> {
    if t.len() > 0 && t[0] == 45 {
        match digits_upto(t.drop_first(), 0x8000_0000) {
            Some(v) => Some((-(v as int)) as i32),
            None => None,
        }
    } else {
        let d = if t.len() > 0 && t[0] == 43 {
            t.drop_first()
        } else {
            t
        };
        match digits_upto(d, 0x7fff_ffff) {
            Some(v) => Some(v as i32),
            None => None,
        }
    }
}

/// Reads the `i32` spelled out by `s`.
pub fn parse_i32(s: &[u8]) -> (r: Option<i32>)
    ensures
        r == parse_i32_spec(s@),
{
    let to = s.len();
    assert(s@.subrange(0, to as int) =~= s@);
    if to > 0 && s[0] == 45 {
        assert(s@.subrange(1, to as int) =~= s@.drop_first());
        match parse_digits(s, 1, to, 0x8000_0000) {
            Some(v) => Some((0 - v as i64) as i32),
            None => None,
        }
    } else {
        let start: usize = if to > 0 && s[0] == 43 {
            1
        } else {
            0
        };
        assert(s@.subrange(start as int, to as int) =~= (if to > 0 && s@[0] == 43 {
            s@.drop_first()
        } else {
            s@
        }));
        match parse_digits(s, start, to, 0x7fff_ffff) {
            Some(v) => Some(v as i32),
            None => None,
        }
    }
}

/// The five decimals of `f` (< 100000), zero-padded.
pub open spec fn five_digits(f: nat) -> Seq<u8> {
    seq![
        (48 + f / 10000 % 10) as u8,
        (48 + f / 1000 % 10) as u8,
        (48 + f / 100 % 10) as u8,
        (48 + f / 10 % 10) as u8,
        (48 + f % 10) as u8,
    ]
}

/// `num / den` rounded half up to five decimals, in hundred-thousandths.
pub open spec fn ratio_e5(num: nat, den: nat) -> nat
    recommends
        den > 0,
{
    (num * 200000 + den) / (2 * den)
}

/// The text of `num / den` to five decimals, as `123.45679`.
pub open spec fn fixed5(num: nat, den: nat) -> Seq<u8> {
    let v = ratio_e5(num, den);
    dec(v / 100000) + seq![46u8] + five_digits(v % 100000)
}

/// The text of a `u32` ratio to five decimals is at most 16 bytes long.
pub proof fn lemma_fixed5_len(num: nat, den: nat)
    requires
        num <= u32::MAX,
        den >= 1,
    ensures
        fixed5(num, den).len() <= 16,
{
    let v = ratio_e5(num, den);
    assert(v <= num * 100000 + 1) by (nonlinear_arith)
        requires
            v == (num * 200000 + den) / (2 * den),
            den >= 1,
    ;
    assert(v / 100000 <= u32::MAX);
    lemma_dec_len(v / 100000);
}

/// Appends `num / den` to five decimals.
pub fn push_fixed5(out: &mut Vec<u8>, num: u32, den: u32)
    requires
        den > 0,
    ensures
        final(out)@ == old(out)@ + fixed5(num as nat, den as nat),
{
    let v: u64 = (num as u64 * 200000 + den as u64) / (2 * den as u64);
    push_dec(out, v / 100000);
    out.push(46);
    let f = v % 100000;
    out.push((48 + f / 10000 % 10) as u8);
    out.push((48 + f / 1000 % 10) as u8);
    out.push((48 + f / 100 % 10) as u8);
    out.push((48 + f / 10 % 10) as u8);
    out.push((48 + f % 10) as u8);
    assert(final(out)@ =~= old(out)@ + fixed5(num as nat, den as nat));
}

} // verus!
