//! Deterministic result-digest encoders for effectful cookbook recipes.
//!
//! Recipes that produce effectful or floating artifacts (rendered audio,
//! encoded frames) encode them as deterministic digests: an audio buffer
//! becomes `(audio-digest (samples N) (peak P) (rms R))` over its
//! integer-quantized samples, and an encoded frame becomes
//! `(frame (bytes N) (hash H))` over a fixed content hash. Both use only
//! integer math, so two runs of the same recipe reproduce byte-for-byte.

use vstd::prelude::*;

use crate::text::{decimal, push_char, push_decimal, text};

verus! {

/// FNV-1a 64-bit offset basis.
pub const FNV_OFFSET: u64 = 0xcbf2_9ce4_8422_2325;

/// FNV-1a 64-bit prime.
pub const FNV_PRIME: u64 = 0x0000_0100_0000_01b3;

/// FNV-1a over `bs`: start from the offset basis; for each byte, xor it in
/// and multiply by the prime modulo 2^64.
pub open spec fn fnv_spec(bs: Seq<u8>) -> u64
    decreases bs.len(),
{
    if bs.len() == 0 {
        FNV_OFFSET
    } else {
        (fnv_spec(bs.drop_last()) ^ (bs.last() as u64)).wrapping_mul(FNV_PRIME)
    }
}

/// Compute the 64-bit FNV-1a hash for `bytes`.
pub fn fnv1a64(bytes: &[u8]) -> (h: u64)
    ensures
        h == fnv_spec(bytes@),
{
    let mut h: u64 = FNV_OFFSET;
    let mut i: usize = 0;
    while i < bytes.len()
        invariant
            i <= bytes.len(),
            h == fnv_spec(bytes@.take(i as int)),
        decreases bytes.len() - i,
    {
        assert(bytes@.take(i + 1).drop_last() =~= bytes@.take(i as int));
        h = (h ^ (bytes[i] as u64)).wrapping_mul(FNV_PRIME);
        i += 1;
    }
    assert(bytes@.take(i as int) =~= bytes@);
    h
}

/// Lowercase hex digit for `d < 16`.
pub open spec fn hex_digit(d: u64) -> char {
    if d < 10 {
        ((d + 48) as u32) as char
    } else {
        ((d + 87) as u32) as char
    }
}

pub(crate) fn hex_digit_exec(d: u64) -> (c: char)
    requires
        d < 16,
    ensures
        c == hex_digit(d),
{
    if d == 0 { '0' } else if d == 1 { '1' } else if d == 2 { '2' } else if d == 3 { '3' }
    else if d == 4 { '4' } else if d == 5 { '5' } else if d == 6 { '6' } else if d == 7 { '7' }
    else if d == 8 { '8' } else if d == 9 { '9' } else if d == 10 { 'a' } else if d == 11 { 'b' }
    else if d == 12 { 'c' } else if d == 13 { 'd' } else if d == 14 { 'e' } else { 'f' }
}

/// The 16 lowercase hex digits of `n`, most significant first.
pub open spec fn hex16(n: u64) -> Seq<char> {
    Seq::new(16, |i: int| hex_digit((n >> ((60 - 4 * i) as u64)) & 0xf))
}

/// Compute the lowercase 16-digit hexadecimal FNV-1a digest for `bytes`.
pub fn fnv1a64_hex(bytes: &[u8]) -> (s: String)
    ensures
        s@ == hex16(fnv_spec(bytes@)),
{
    let n = fnv1a64(bytes);
    let mut s = String::new();
    let mut i: u64 = 0;
    while i < 16
        invariant
            i <= 16,
            s@ == hex16(n).take(i as int),
        decreases 16 - i,
    {
        let shift: u64 = 60 - 4 * i;
        let d = (n >> shift) & 0xf;
        assert(d < 16) by (bit_vector)
            requires
                d == (n >> shift) & 0xf,
        ;
        push_char(&mut s, hex_digit_exec(d));
        assert(s@ =~= hex16(n).take(i + 1));
        i += 1;
    }
    assert(hex16(n).take(16) =~= hex16(n));
    s
}

/// The digest text of a frame of `len` bytes with content hash `h`.
pub open spec fn frame_text(len: nat, h: u64) -> Seq<char> {
    "(frame (bytes "@ + decimal(len) + ") (hash "@ + hex16(h) + "))"@
}

/// The deterministic content digest of an encoded frame's bytes: its byte
/// length and its FNV-1a hash in lowercase hex.
pub fn frame_digest(bytes: &[u8]) -> (s: String)
    ensures
        s@ == frame_text(bytes@.len(), fnv_spec(bytes@)),
{
    let mut s = text("(frame (bytes ");
    push_decimal(&mut s, bytes.len() as u64);
    s.append(") (hash ");
    let h = fnv1a64_hex(bytes);
    s.append(h.as_str());
    s.append("))");
    s
}

/// Largest absolute sample value (0 for no samples).
pub open spec fn peak_spec(s: Seq<i64>) -> nat
    decreases s.len(),
{
    if s.len() == 0 {
        0
    } else {
        let p = peak_spec(s.drop_last());
        let a = if s.last() < 0 {
            -(s.last() as int)
        } else {
            s.last() as int
        };
        if a > p {
            a as nat
        } else {
            p
        }
    }
}

/// Sum of squared samples, saturating at `u128::MAX`.
pub open spec fn sum_sq_spec(s: Seq<i64>) -> nat
    decreases s.len(),
{
    if s.len() == 0 {
        0
    } else {
        let t = sum_sq_spec(s.drop_last()) + (s.last() as int) * (s.last() as int);
        if t > u128::MAX {
            u128::MAX as nat
        } else {
            t as nat
        }
    }
}

/// `r` is the integer square root of `x`.
pub open spec fn is_isqrt(r: nat, x: nat) -> bool {
    r * r <= x && x < (r + 1) * (r + 1)
}

/// Integer root-mean-square of the samples (0 for no samples).
pub open spec fn rms_spec(s: Seq<i64>) -> nat {
    if s.len() == 0 {
        0
    } else {
        choose|r: nat| #[trigger] is_isqrt(r, sum_sq_spec(s) / s.len())
    }
}

/// The digest text for a buffer.
pub open spec fn audio_text(s: Seq<i64>) -> Seq<char> {
    "(audio-digest (samples "@ + decimal(s.len()) + ") (peak "@ + decimal(peak_spec(s))
        + ") (rms "@ + decimal(rms_spec(s)) + "))"@
}

proof fn lemma_isqrt_unique(a: nat, b: nat, x: nat)
    requires
        is_isqrt(a, x),
        is_isqrt(b, x),
    ensures
        a == b,
{
    if a < b {
        assert((a + 1) * (a + 1) <= b * b) by (nonlinear_arith)
            requires
                a + 1 <= b,
        ;
    } else if b < a {
        assert((b + 1) * (b + 1) <= a * a) by (nonlinear_arith)
            requires
                b + 1 <= a,
        ;
    }
}

/// Integer square root by bisection.
fn isqrt(x: u128) -> (r: u64)
    ensures
        is_isqrt(r as nat, x as nat),
{
    let mut lo: u128 = 0;
    let mut hi: u128 = 0x1_0000_0000_0000_0000;
    assert(x < hi * hi) by (nonlinear_arith)
        requires
            hi == 0x1_0000_0000_0000_0000u128,
    ;
    while hi - lo > 1
        invariant
            lo < hi <= 0x1_0000_0000_0000_0000,
            lo * lo <= x,
            x < hi * hi,
        decreases hi - lo,
    {
        let mid = lo + (hi - lo) / 2;
        assert(mid * mid <= 0xffff_ffff_ffff_ffff * 0xffff_ffff_ffff_ffffu128) by (nonlinear_arith)
            requires
                mid < 0x1_0000_0000_0000_0000u128,
        ;
        if mid * mid <= x {
            lo = mid;
        } else {
            hi = mid;
        }
    }
    assert(hi == lo + 1);
    lo as u64
}

/// The deterministic digest of a quantized audio buffer: sample count, peak
/// absolute amplitude, and integer root-mean-square. The sum of squares
/// saturates at `u128::MAX` rather than overflowing.
pub fn audio_digest(samples: &[i64]) -> (s: String)
    ensures
        s@ == audio_text(samples@),
{
    let n = samples.len();
    let mut peak: u64 = 0;
    let mut sum_sq: u128 = 0;
    let mut i: usize = 0;
    while i < n
        invariant
            i <= n == samples.len(),
            peak == peak_spec(samples@.take(i as int)),
            sum_sq == sum_sq_spec(samples@.take(i as int)),
        decreases n - i,
    {
        assert(samples@.take(i + 1).drop_last() =~= samples@.take(i as int));
        let v = samples[i];
        let a: u64 = if v < 0 {
            (-(v as i128)) as u64
        } else {
            v as u64
        };
        if a > peak {
            peak = a;
        }
        let w = v as i128;
        assert(0 <= w * w <= 0x4000_0000_0000_0000_0000_0000_0000_0000i128) by (nonlinear_arith)
            requires
                -0x8000_0000_0000_0000i128 <= w <= 0x7fff_ffff_ffff_ffffi128,
        ;
        let sq = (w * w) as u128;
        sum_sq = sum_sq.saturating_add(sq);
        i += 1;
    }
    assert(samples@.take(n as int) =~= samples@);
    let rms: u64 = if n == 0 {
        0
    } else {
        let mean = sum_sq / (n as u128);
        let r = isqrt(mean);
        proof {
            let c = choose|r: nat| #[trigger] is_isqrt(r, sum_sq_spec(samples@) / samples@.len());
            assert(is_isqrt(r as nat, sum_sq_spec(samples@) / samples@.len()));
            lemma_isqrt_unique(r as nat, c, sum_sq_spec(samples@) / samples@.len());
        }
        r
    };
    let mut s = text("(audio-digest (samples ");
    push_decimal(&mut s, n as u64);
    s.append(") (peak ");
    push_decimal(&mut s, peak);
    s.append(") (rms ");
    push_decimal(&mut s, rms);
    s.append("))");
    s
}

} // verus!
