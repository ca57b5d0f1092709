//! Byte encodings: index rows, and conversion between single and half precision
//! on bit patterns.

use vstd::arithmetic::power2::{lemma2_to64, lemma_pow2_adds, lemma_pow2_unfold, pow2};
use vstd::prelude::*;

verus! {

/// Byte `b` of a number, counted from the least significant.
pub open spec fn byte_of(x: int, b: int) -> u8 {
    (if b == 0 {
        x % 256
    } else if b == 1 {
        x / 256 % 256
    } else if b == 2 {
        x / 65536 % 256
    } else {
        x / 16777216 % 256
    }) as u8
}

/// `n` 32-bit little-endian words, word `i` holding the low bits of `f(i)`.
pub open spec fn index_bytes(n: nat, f: spec_fn(int) -> int) -> Seq<u8> {
    Seq::new(4 * n, |p: int| byte_of(f(p / 4), p % 4))
}

fn push_index(bytes: &mut Vec<u8>, x: u64)
    ensures
        final(bytes)@ == old(bytes)@ + seq![
            byte_of(x as int, 0),
            byte_of(x as int, 1),
            byte_of(x as int, 2),
            byte_of(x as int, 3),
        ],
{
    let ghost before = bytes@;
    bytes.push((x % 256) as u8);
    bytes.push((x / 256 % 256) as u8);
    bytes.push((x / 65536 % 256) as u8);
    bytes.push((x / 16777216 % 256) as u8);
    assert(bytes@ =~= before + seq![
        byte_of(x as int, 0),
        byte_of(x as int, 1),
        byte_of(x as int, 2),
        byte_of(x as int, 3),
    ]);
}

proof fn lemma_next_index(bytes: Seq<u8>, i: nat, f: spec_fn(int) -> int, x: int)
    requires
        bytes == index_bytes(i, f) + seq![
            byte_of(x, 0),
            byte_of(x, 1),
            byte_of(x, 2),
            byte_of(x, 3),
        ],
        x == f(i as int),
    ensures
        bytes == index_bytes(i + 1, f),
{
    assert forall|p: int| 0 <= p < 4 * (i + 1) implies #[trigger] bytes[p] == index_bytes(
        i + 1,
        f,
    )[p] by {
        if p < 4 * i {
            assert(bytes[p] == index_bytes(i, f)[p]);
        } else {
            assert(p / 4 == i && p % 4 == p - 4 * i);
        }
    }
    assert(bytes =~= index_bytes(i + 1, f));
}

/// The channel that each channel of a `d`-wide row rotates with.
pub open spec fn rotation(d: int) -> spec_fn(int) -> int {
    |i: int|
        if i < d / 2 {
            i + d / 2
        } else {
            i - d / 2
        }
}

/// The rotate-half index row.
pub fn rotation_bytes(d: i64) -> (bytes: Vec<u8>)
    requires
        0 <= d,
    ensures
        bytes@ == index_bytes(d as nat, rotation(d as int)),
{
    let half: u64 = d as u64 / 2;
    let mut bytes: Vec<u8> = Vec::new();
    let mut i: u64 = 0;
    assert(bytes@ =~= index_bytes(0, rotation(d as int)));
    while i < d as u64
        invariant
            0 <= d,
            i <= d,
            half == d / 2,
            bytes@ == index_bytes(i as nat, rotation(d as int)),
        decreases d - i,
    {
        let x: u64 = if i < half {
            i + half
        } else {
            i - half
        };
        push_index(&mut bytes, x);
        proof {
            lemma_next_index(bytes@, i as nat, rotation(d as int), x as int);
        }
        i = i + 1;
    }
    bytes
}

/// Position of each row: `heads` rows for every token, starting at `offset`.
pub open spec fn positions(heads: int, offset: int) -> spec_fn(int) -> int {
    |i: int| offset + i / heads
}

/// The position row of `tokens` tokens with `heads` heads each.
pub fn position_bytes(tokens: i64, heads: i64, offset: usize) -> (bytes: Vec<u8>)
    requires
        0 <= tokens,
        0 <= heads,
        tokens * heads <= i64::MAX,
        offset + tokens <= i64::MAX,
    ensures
        bytes@ == index_bytes((tokens * heads) as nat, positions(heads as int, offset as int)),
{
    let ghost f = positions(heads as int, offset as int);
    let mut bytes: Vec<u8> = Vec::new();
    let mut t: i64 = 0;
    assert(bytes@ =~= index_bytes(0, f));
    while t < tokens
        invariant
            0 <= t <= tokens,
            0 <= heads,
            tokens * heads <= i64::MAX,
            offset + tokens <= i64::MAX,
            f == positions(heads as int, offset as int),
            bytes@ == index_bytes((t * heads) as nat, f),
        decreases tokens - t,
    {
        let mut h: i64 = 0;
        while h < heads
            invariant
                0 <= t < tokens,
                0 <= h <= heads,
                offset + tokens <= i64::MAX,
                f == positions(heads as int, offset as int),
                0 <= t * heads,
                bytes@ == index_bytes((t * heads + h) as nat, f),
            decreases heads - h,
        {
            let x: u64 = offset as u64 + t as u64;
            push_index(&mut bytes, x);
            proof {
                let i = t * heads + h;
                assert(i == heads * t + h) by (nonlinear_arith)
                    requires
                        i == t * heads + h,
                ;
                vstd::arithmetic::div_mod::lemma_fundamental_div_mod_converse(
                    i,
                    heads as int,
                    t as int,
                    h as int,
                );
                lemma_next_index(bytes@, i as nat, f, x as int);
            }
            h = h + 1;
        }
        proof {
            assert(t * heads + heads == (t + 1) * heads) by (nonlinear_arith);
            assert((t + 1) * heads >= 0) by (nonlinear_arith)
                requires
                    t >= 0,
                    heads >= 0,
            ;
        }
        t = t + 1;
    }
    bytes
}

/// Rows `0, 1, .., period - 1` over and over.
pub open spec fn cycle(period: int) -> spec_fn(int) -> int {
    |i: int| i % period
}

/// The index row that repeats a table of `period` rows over `n` rows.
pub fn cycle_bytes(n: i64, period: i64) -> (bytes: Vec<u8>)
    requires
        0 <= n,
        0 < period,
    ensures
        bytes@ == index_bytes(n as nat, cycle(period as int)),
{
    let ghost f = cycle(period as int);
    let mut bytes: Vec<u8> = Vec::new();
    let mut i: u64 = 0;
    assert(bytes@ =~= index_bytes(0, f));
    while i < n as u64
        invariant
            0 <= n,
            i <= n,
            0 < period,
            f == cycle(period as int),
            bytes@ == index_bytes(i as nat, f),
        decreases n - i,
    {
        let x: u64 = i % period as u64;
        push_index(&mut bytes, x);
        proof {
            lemma_next_index(bytes@, i as nat, f, x as int);
        }
        i = i + 1;
    }
    bytes
}

/// The numbers of a sequence.
pub open spec fn listed(ids: Seq<u32>) -> spec_fn(int) -> int {
    |i: int| ids[i] as int
}

/// The index row of a token sequence.
pub fn id_bytes(ids: &[u32]) -> (bytes: Vec<u8>)
    ensures
        bytes@ == index_bytes(ids@.len(), listed(ids@)),
{
    let ghost f = listed(ids@);
    let mut bytes: Vec<u8> = Vec::new();
    let mut i: usize = 0;
    assert(bytes@ =~= index_bytes(0, f));
    while i < ids.len()
        invariant
            i <= ids@.len(),
            f == listed(ids@),
            bytes@ == index_bytes(i as nat, f),
        decreases ids@.len() - i,
    {
        let x: u64 = ids[i] as u64;
        push_index(&mut bytes, x);
        proof {
            lemma_next_index(bytes@, i as nat, f, x as int);
        }
        i = i + 1;
    }
    bytes
}

/// `n` half-precision words, word `i` being `f(i)`.
pub open spec fn half_bytes(n: nat, f: spec_fn(int) -> int) -> Seq<u8> {
    Seq::new(2 * n, |p: int| byte_of(f(p / 2), p % 2))
}

fn push_half(bytes: &mut Vec<u8>, x: u16)
    ensures
        final(bytes)@ == old(bytes)@ + seq![byte_of(x as int, 0), byte_of(x as int, 1)],
{
    let ghost before = bytes@;
    bytes.push((x % 256) as u8);
    bytes.push((x / 256 % 256) as u8);
    assert(bytes@ =~= before + seq![byte_of(x as int, 0), byte_of(x as int, 1)]);
}

proof fn lemma_next_half(bytes: Seq<u8>, i: nat, f: spec_fn(int) -> int, x: int)
    requires
        bytes == half_bytes(i, f) + seq![byte_of(x, 0), byte_of(x, 1)],
        x == f(i as int),
    ensures
        bytes == half_bytes(i + 1, f),
{
    assert forall|p: int| 0 <= p < 2 * (i + 1) implies #[trigger] bytes[p] == half_bytes(
        i + 1,
        f,
    )[p] by {
        if p < 2 * i {
            assert(bytes[p] == half_bytes(i, f)[p]);
        } else {
            assert(p / 2 == i && p % 2 == p - 2 * i);
        }
    }
    assert(bytes =~= half_bytes(i + 1, f));
}

/// The half-precision pattern of one.
pub const HALF_ONE: u16 = 0x3c00;

/// Always the pattern of one.
pub open spec fn all_ones() -> spec_fn(int) -> int {
    |i: int| HALF_ONE as int
}

/// A row of `n` ones.
pub fn ones_bytes(n: usize) -> (bytes: Vec<u8>)
    ensures
        bytes@ == half_bytes(n as nat, all_ones()),
{
    let mut bytes: Vec<u8> = Vec::new();
    let mut i: usize = 0;
    assert(bytes@ =~= half_bytes(0, all_ones()));
    while i < n
        invariant
            i <= n,
            bytes@ == half_bytes(i as nat, all_ones()),
        decreases n - i,
    {
        push_half(&mut bytes, HALF_ONE);
        proof {
            lemma_next_half(bytes@, i as nat, all_ones(), HALF_ONE as int);
        }
        i = i + 1;
    }
    bytes
}

/// `m / 8192`, rounded to the nearest integer, ties to the even one.
pub open spec fn round_mantissa(m: int) -> int {
    let down = m / 8192;
    let rest = m % 8192;
    if rest > 4096 || (rest == 4096 && down % 2 == 1) {
        down + 1
    } else {
        down
    }
}

/// A single-precision pattern rounded to half precision.
///
/// What is too small for a normal number becomes zero and what is too large, or
/// not a number, becomes infinity, each with its sign.
pub open spec fn to_half(bits: u32) -> int {
    let sign = bits as int / 0x8000_0000 * 0x8000;
    let exponent = bits as int / 0x80_0000 % 256 - 112;
    let mantissa = bits as int % 0x80_0000;
    if exponent <= 0 {
        sign
    } else if exponent >= 31 {
        sign + 0x7c00
    } else {
        sign + exponent * 1024 + round_mantissa(mantissa)
    }
}

/// Round a single-precision pattern to half precision.
pub fn f32_to_f16_bits(bits: u32) -> (half: u16)
    ensures
        half == to_half(bits),
{
    let sign: u32 = bits / 0x8000_0000 * 0x8000;
    let biased: u32 = bits / 0x80_0000 % 256;
    let mantissa: u32 = bits % 0x80_0000;
    if biased <= 112 {
        sign as u16
    } else if biased >= 143 {
        (sign + 0x7c00) as u16
    } else {
        let down: u32 = mantissa / 8192;
        let rest: u32 = mantissa % 8192;
        let up: u32 = if rest > 4096 || (rest == 4096 && down % 2 == 1) {
            1
        } else {
            0
        };
        (sign + (biased - 112) * 1024 + down + up) as u16
    }
}

/// How often a mantissa must be doubled until its top bit is set.
pub open spec fn leading(m: int) -> int
    decreases 1024 - m,
{
    if m <= 0 || m >= 512 {
        0
    } else {
        1 + leading(2 * m)
    }
}

/// `m` doubled until its top bit is set.
pub open spec fn normalized(m: int) -> int
    decreases 1024 - m,
{
    if m <= 0 || m >= 512 {
        m
    } else {
        normalized(2 * m)
    }
}

/// A half-precision pattern in single precision, exactly.
pub open spec fn to_single(half: u16) -> int {
    let sign = half as int / 0x8000 * 0x8000_0000;
    let exponent = half as int / 1024 % 32;
    let mantissa = half as int % 1024;
    if exponent == 0 {
        if mantissa == 0 {
            sign
        } else {
            sign + (112 - leading(mantissa)) * 0x80_0000 + (2 * normalized(mantissa) - 1024) * 8192
        }
    } else if exponent == 31 {
        sign + 0x7f80_0000 + mantissa * 8192
    } else {
        sign + (exponent + 112) * 0x80_0000 + mantissa * 8192
    }
}

proof fn lemma_normalized(m: int)
    requires
        0 < m < 1024,
    ensures
        512 <= normalized(m) < 1024,
        0 <= leading(m) <= 9,
    decreases 1024 - m,
{
    lemma_leading_bound(m, 0);
    if m < 512 {
        lemma_normalized(2 * m);
    }
}

proof fn lemma_leading_bound(m: int, k: int)
    requires
        0 < m < 1024,
    ensures
        m < 512 ==> leading(m) == 1 + leading(2 * m),
        0 <= leading(m),
        m >= 512 ==> leading(m) == 0,
        m >= 256 ==> leading(m) <= 1,
        m >= 128 ==> leading(m) <= 2,
        m >= 64 ==> leading(m) <= 3,
        m >= 32 ==> leading(m) <= 4,
        m >= 16 ==> leading(m) <= 5,
        m >= 8 ==> leading(m) <= 6,
        m >= 4 ==> leading(m) <= 7,
        m >= 2 ==> leading(m) <= 8,
        leading(m) <= 9,
    decreases 1024 - m,
{
    if m < 512 {
        lemma_leading_bound(2 * m, k);
    }
}

/// Widen a half-precision pattern to single precision.
pub fn f16_bits_to_f32(half: u16) -> (bits: u32)
    ensures
        bits == to_single(half),
{
    let sign: u32 = half as u32 / 0x8000 * 0x8000_0000;
    let exponent: u32 = half as u32 / 1024 % 32;
    let mantissa: u32 = half as u32 % 1024;
    if exponent == 0 {
        if mantissa == 0 {
            return sign;
        }
        let mut shifted: u32 = mantissa;
        let mut lead: u32 = 0;
        proof {
            lemma_normalized(mantissa as int);
        }
        while shifted < 512
            invariant
                0 < shifted < 1024,
                lead + leading(shifted as int) == leading(mantissa as int),
                normalized(shifted as int) == normalized(mantissa as int),
                leading(mantissa as int) <= 9,
            decreases 1024 - shifted,
        {
            proof {
                lemma_leading_bound(shifted as int, 0);
                lemma_leading_bound(2 * shifted as int, 0);
            }
            shifted = shifted * 2;
            lead = lead + 1;
        }
        return sign + (112 - lead) * 0x80_0000 + (2 * shifted - 1024) * 8192;
    }
    if exponent == 31 {
        return sign + 0x7f80_0000 + mantissa * 8192;
    }
    sign + (exponent + 112) * 0x80_0000 + mantissa * 8192
}

/// Widening and rounding gives every normal number, zero and infinity back.
pub proof fn lemma_half_round_trip(half: u16)
    requires
        ({
            let exponent = half as int / 1024 % 32;
            let mantissa = half as int % 1024;
            1 <= exponent <= 30 || mantissa == 0
        }),
    ensures
        0 <= to_single(half) <= u32::MAX,
        to_half(to_single(half) as u32) == half,
{
    let sign = half as int / 0x8000;
    let exponent = half as int / 1024 % 32;
    let mantissa = half as int % 1024;
    assert(half == sign * 0x8000 + exponent * 1024 + mantissa);
    let x = to_single(half);
    let e: int = if exponent == 0 {
        0
    } else if exponent == 31 {
        255
    } else {
        exponent + 112
    };
    assert(x == sign * 0x8000_0000 + e * 0x80_0000 + mantissa * 8192);
    assert(0 <= sign <= 1);
    assert(x / 0x8000_0000 == sign);
    assert(x / 0x80_0000 == sign * 256 + e);
    assert(x % 0x80_0000 == mantissa * 8192);
    assert((mantissa * 8192) / 8192 == mantissa && (mantissa * 8192) % 8192 == 0);
}

/// Rounding to half precision never yields a subnormal number.
pub proof fn lemma_half_is_normal(bits: u32)
    ensures
        0 <= to_half(bits) <= u16::MAX,
        to_half(bits) / 1024 % 32 == 0 ==> to_half(bits) % 1024 == 0,
{
    let sign = bits as int / 0x8000_0000 * 0x8000;
    let exponent = bits as int / 0x80_0000 % 256 - 112;
    let mantissa = bits as int % 0x80_0000;
    let r = round_mantissa(mantissa);
    assert(0 <= r <= 1024);
    if 0 < exponent < 31 {
        assert(to_half(bits) == sign + exponent * 1024 + r);
    }
}

/// Rounding keeps the sign and takes the nearest half-precision number, the even one where
/// two are equally near. Counted from the least normal exponent of half precision, patterns
/// without their sign are ordered and spaced as the numbers are, 8192 single-precision ones
/// for each half-precision one.
pub proof fn lemma_half_nearest(bits: u32)
    ensures
        ({
            let magnitude = bits as int % 0x8000_0000;
            let half = to_half(bits) % 0x8000;
            let x = magnitude - 112 * 0x80_0000;
            &&& to_half(bits) / 0x8000 == bits as int / 0x8000_0000
            &&& magnitude < 113 * 0x80_0000 ==> half == 0
            &&& magnitude >= 143 * 0x80_0000 ==> half == 0x7c00
            &&& 113 * 0x80_0000 <= magnitude < 143 * 0x80_0000 ==> {
                &&& -4096 <= half * 8192 - x <= 4096
                &&& half * 8192 - x == 4096 || half * 8192 - x == -4096 ==> half % 2 == 0
            }
        }),
{
    let sign = bits as int / 0x8000_0000;
    let magnitude = bits as int % 0x8000_0000;
    let biased = bits as int / 0x80_0000 % 256;
    let mantissa = bits as int % 0x80_0000;
    assert(magnitude == biased * 0x80_0000 + mantissa);
    let r = round_mantissa(mantissa);
    assert(0 <= r <= 1024);
    assert(mantissa == mantissa / 8192 * 8192 + mantissa % 8192);
    if 0 < biased - 112 < 31 {
        let h = (biased - 112) * 1024 + r;
        assert(to_half(bits) == sign * 0x8000 + h);
        assert(0 <= h < 0x8000);
        assert(h * 8192 - (magnitude - 112 * 0x80_0000) == r * 8192 - mantissa);
    }
}

/// Doubling until the top bit is set multiplies by a power of two.
proof fn lemma_normalized_value(m: int)
    requires
        0 < m < 1024,
    ensures
        0 <= leading(m) <= 9,
        normalized(m) == m * pow2(leading(m) as nat),
    decreases 1024 - m,
{
    lemma_normalized(m);
    lemma2_to64();
    if m < 512 {
        lemma_normalized_value(2 * m);
        lemma_normalized(2 * m);
        let l = leading(2 * m) as nat;
        lemma_pow2_unfold((l + 1) as nat);
        let p = pow2(l) as int;
        let q = pow2(leading(m) as nat) as int;
        assert((2 * m) * p == m * q) by (nonlinear_arith)
            requires
                q == 2 * p,
        ;
    } else {
        let q = pow2(leading(m) as nat) as int;
        assert(m * q == m) by (nonlinear_arith)
            requires
                q == 1,
        ;
    }
}

/// Widening is exact: a finite half-precision number, counted in units of its least
/// subnormal number, is the single-precision number, counted in units of its own least
/// subnormal number, divided by the 125th power of two.
pub proof fn lemma_widening_exact(half: u16)
    requires
        half as int / 1024 % 32 < 31,
    ensures
        ({
            let e = half as int / 1024 % 32;
            let m = half as int % 1024;
            let x = to_single(half);
            let biased = x / 0x80_0000 % 256;
            let mantissa = x % 0x80_0000;
            let narrow = if e == 0 {
                m
            } else {
                (1024 + m) * pow2((e - 1) as nat)
            };
            let wide = if biased == 0 {
                mantissa
            } else {
                (0x80_0000 + mantissa) * pow2((biased - 1) as nat)
            };
            &&& 0 <= x <= u32::MAX
            &&& x / 0x8000_0000 == half as int / 0x8000
            &&& wide == narrow * pow2(125)
        }),
{
    let sign = half as int / 0x8000;
    let e = half as int / 1024 % 32;
    let m = half as int % 1024;
    let x = to_single(half);
    lemma2_to64();
    if e == 0 && m == 0 {
        assert(x == sign * 0x8000_0000);
        assert(0 * pow2(125) == 0) by (nonlinear_arith);
    } else if e == 0 {
        lemma_normalized(m);
        lemma_normalized_value(m);
        let l = leading(m);
        let n = normalized(m);
        let biased = 112 - l;
        let mantissa = (2 * n - 1024) * 8192;
        assert(x == sign * 0x8000_0000 + biased * 0x80_0000 + mantissa);
        assert(x / 0x80_0000 % 256 == biased && x % 0x80_0000 == mantissa);
        lemma_pow2_adds(l as nat, (111 - l) as nat);
        lemma_pow2_adds(14, 111);
        let a = pow2(l as nat) as int;
        let b = pow2((111 - l) as nat) as int;
        assert((0x80_0000 + mantissa) == 16384 * n);
        assert((16384 * (m * a)) * b == m * (16384 * (a * b))) by (nonlinear_arith);
    } else {
        let biased = e + 112;
        let mantissa = m * 8192;
        assert(x == sign * 0x8000_0000 + biased * 0x80_0000 + mantissa);
        assert(x / 0x80_0000 % 256 == biased && x % 0x80_0000 == mantissa);
        lemma_pow2_adds((e - 1) as nat, 112);
        lemma_pow2_adds(13, 112);
        let a = pow2((e - 1) as nat) as int;
        let b = pow2(112) as int;
        assert((8192 * (1024 + m)) * (a * b) == ((1024 + m) * a) * (8192 * b)) by (nonlinear_arith);
    }
}

/// Words of a sequence of patterns, rounded to half precision.
pub open spec fn rounded(v: Seq<u32>) -> spec_fn(int) -> int {
    |i: int| to_half(v[i])
}

/// Round single-precision patterns to half-precision bytes.
pub fn f32_to_f16_bytes(v: &[u32]) -> (bytes: Vec<u8>)
    ensures
        bytes@ == half_bytes(v@.len(), rounded(v@)),
{
    let ghost f = rounded(v@);
    let mut bytes: Vec<u8> = Vec::new();
    let mut i: usize = 0;
    assert(bytes@ =~= half_bytes(0, f));
    while i < v.len()
        invariant
            i <= v@.len(),
            f == rounded(v@),
            bytes@ == half_bytes(i as nat, f),
        decreases v@.len() - i,
    {
        let x: u16 = f32_to_f16_bits(v[i]);
        push_half(&mut bytes, x);
        proof {
            lemma_next_half(bytes@, i as nat, f, x as int);
        }
        i = i + 1;
    }
    bytes
}

/// The words of a sequence.
pub open spec fn as_words(v: Seq<u16>) -> spec_fn(int) -> int {
    |i: int| v[i] as int
}

/// Half-precision words as bytes.
pub fn word_bytes(words: &[u16]) -> (bytes: Vec<u8>)
    ensures
        bytes@ == half_bytes(words@.len(), as_words(words@)),
{
    let ghost f = as_words(words@);
    let mut bytes: Vec<u8> = Vec::new();
    let mut i: usize = 0;
    assert(bytes@ =~= half_bytes(0, f));
    while i < words.len()
        invariant
            i <= words@.len(),
            f == as_words(words@),
            bytes@ == half_bytes(i as nat, f),
        decreases words@.len() - i,
    {
        let x: u16 = words[i];
        push_half(&mut bytes, x);
        proof {
            lemma_next_half(bytes@, i as nat, f, x as int);
        }
        i = i + 1;
    }
    bytes
}

/// The word that two bytes hold.
pub open spec fn word_at(bytes: Seq<u8>, i: int) -> u16 {
    (bytes[2 * i] + 256 * bytes[2 * i + 1]) as u16
}

/// The half-precision words that bytes hold. An odd trailing byte is dropped.
pub fn bytes_to_words(bytes: &[u8]) -> (words: Vec<u16>)
    ensures
        words@ == Seq::new(bytes@.len() / 2, |i: int| word_at(bytes@, i)),
{
    let n: usize = bytes.len() / 2;
    let mut words: Vec<u16> = Vec::new();
    let mut i: usize = 0;
    while i < n
        invariant
            i <= n,
            n == bytes@.len() / 2,
            2 * n <= usize::MAX,
            words@ == Seq::new(i as nat, |j: int| word_at(bytes@, j)),
        decreases n - i,
    {
        words.push(bytes[2 * i] as u16 + 256 * bytes[2 * i + 1] as u16);
        i = i + 1;
        assert(words@ =~= Seq::new(i as nat, |j: int| word_at(bytes@, j)));
    }
    words
}

/// Words survive being written as bytes and read back.
pub proof fn lemma_words_round_trip(v: Seq<u16>)
    ensures
        Seq::new(
            half_bytes(v.len(), as_words(v)).len() / 2,
            |i: int| word_at(half_bytes(v.len(), as_words(v)), i),
        ) == v,
{
    let bytes = half_bytes(v.len(), as_words(v));
    let back = Seq::new(bytes.len() / 2, |i: int| word_at(bytes, i));
    assert forall|i: int| 0 <= i < v.len() implies #[trigger] back[i] == v[i] by {
        assert((2 * i) / 2 == i && (2 * i) % 2 == 0);
        assert((2 * i + 1) / 2 == i && (2 * i + 1) % 2 == 1);
        let x = v[i] as int;
        assert(bytes[2 * i] == x % 256);
        assert(bytes[2 * i + 1] == x / 256 % 256);
    }
    assert(back =~= v);
}

} // verus!
