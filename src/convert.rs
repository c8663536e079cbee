//! Conversion of little-endian IEEE-754 binary32 PCM bytes into signed 16-bit
//! samples, saturating at plus and minus full scale.
//!
//! The conversion works on the bit pattern of each float: the value of a finite
//! word is `significand * 2^(e - 150)` with `e = max(exponent_field, 1)`, so
//! every finite value is an integer multiple of `2^-149`. The specification
//! below measures values in that unit, which keeps all reasoning on integers.

use vstd::arithmetic::div_mod::*;
use vstd::arithmetic::power2::*;
use vstd::bits::*;
use vstd::prelude::*;

verus! {

/// Largest magnitude of an emitted sample.
pub const FULL_SCALE: i16 = 32767;

/// Bytes taken by one input float.
pub const BYTES_PER_FLOAT: usize = 4;

/// The unsigned integer held by four little-endian bytes.
pub open spec fn le_word(b0: u8, b1: u8, b2: u8, b3: u8) -> u32 {
    (b0 as int + 256 * b1 as int + 65536 * b2 as int + 16777216 * b3 as int) as u32
}

/// The `i`-th four-byte word of `bytes`.
pub open spec fn word_at(bytes: Seq<u8>, i: int) -> u32 {
    le_word(bytes[4 * i], bytes[4 * i + 1], bytes[4 * i + 2], bytes[4 * i + 3])
}

/// The biased exponent field (bits 23..30).
pub open spec fn exponent_field(w: u32) -> nat {
    ((w as nat / 0x80_0000) % 256) as nat
}

/// The fraction field (bits 0..22).
pub open spec fn fraction_field(w: u32) -> nat {
    (w as nat % 0x80_0000) as nat
}

/// The sign bit (bit 31).
pub open spec fn is_negative(w: u32) -> bool {
    w >= 0x8000_0000
}

pub open spec fn is_nan(w: u32) -> bool {
    exponent_field(w) == 255 && fraction_field(w) != 0
}

pub open spec fn is_infinite(w: u32) -> bool {
    exponent_field(w) == 255 && fraction_field(w) == 0
}

/// The significand as an integer, hidden bit included for normal numbers.
pub open spec fn significand(w: u32) -> nat {
    if exponent_field(w) == 0 {
        fraction_field(w)
    } else {
        fraction_field(w) + 0x80_0000
    }
}

/// `2^149`: the value one in units of `2^-149`.
pub open spec fn unit() -> nat {
    pow2(149)
}

/// The magnitude of a finite word in units of `2^-149`.
pub open spec fn magnitude(w: u32) -> nat {
    let e: nat = if exponent_field(w) == 0 { 1 } else { exponent_field(w) };
    significand(w) * pow2((e - 1) as nat)
}

/// The value of a non-NaN word clamped to `[-1, 1]`, in units of `2^-149`.
pub open spec fn clamped_value(w: u32) -> int {
    let m: int = if is_infinite(w) || magnitude(w) >= unit() {
        unit() as int
    } else {
        magnitude(w) as int
    };
    if is_negative(w) {
        -m
    } else {
        m
    }
}

/// `c * 32767`, with `c` in units of `2^-149`, rounded toward zero.
pub open spec fn truncate_scaled(c: int) -> int {
    if c >= 0 {
        (c * 32767) / (unit() as int)
    } else {
        -(((-c) * 32767) / (unit() as int))
    }
}

/// The sample for one float word: `trunc(clamp(x, -1, 1) * 32767)`, and 0 for NaN.
pub open spec fn sample_of_word(w: u32) -> int {
    if is_nan(w) {
        0
    } else {
        truncate_scaled(clamped_value(w))
    }
}

/// The samples for a byte sequence: one per whole four-byte word.
pub open spec fn samples_of(bytes: Seq<u8>) -> Seq<i16> {
    Seq::new(bytes.len() / 4, |i: int| sample_of_word(word_at(bytes, i)) as i16)
}

/// `(a * 2^k) / 2^(k + j) == a / 2^j`.
proof fn lemma_div_pow2_cancel(a: nat, k: nat, j: nat)
    ensures
        (a * pow2(k)) / pow2(k + j) == a / pow2(j),
{
    lemma_pow2_pos(k);
    lemma_pow2_pos(j);
    lemma_pow2_adds(k, j);
    lemma_div_denominator((a * pow2(k)) as int, pow2(k) as int, pow2(j) as int);
    lemma_div_multiples_vanish(a as int, pow2(k) as int);
    assert(pow2(k) * a == a * pow2(k)) by (nonlinear_arith);
}

/// A scaled value in `[-1, 1]` truncates into `[-32767, 32767]`, keeping its sign.
proof fn lemma_truncate_bounds(c: int)
    requires
        -(unit() as int) <= c <= unit() as int,
    ensures
        -32767 <= truncate_scaled(c) <= 32767,
        c >= 0 ==> truncate_scaled(c) >= 0,
        c <= 0 ==> truncate_scaled(c) <= 0,
{
    let u = unit() as int;
    lemma_pow2_pos(149);
    let a = if c >= 0 { c } else { -c };
    assert(0 <= a * 32767 <= u * 32767) by (nonlinear_arith)
        requires
            0 <= a <= u,
    ;
    lemma_div_is_ordered(a * 32767, u * 32767, u);
    lemma_div_multiples_vanish(32767, u);
    assert(u * 32767 == 32767 * u) by (nonlinear_arith);
    lemma_div_is_ordered(0, a * 32767, u);
}

/// Every sample lies in `[-32767, 32767]`.
pub proof fn lemma_sample_in_range(w: u32)
    ensures
        -32767 <= sample_of_word(w) <= 32767,
{
    if !is_nan(w) {
        lemma_pow2_pos(149);
        lemma_truncate_bounds(clamped_value(w));
    }
}

/// Rounding toward zero is monotone in the scaled value.
proof fn lemma_truncate_monotone(c1: int, c2: int)
    requires
        c1 <= c2,
    ensures
        truncate_scaled(c1) <= truncate_scaled(c2),
{
    let u = unit() as int;
    lemma_pow2_pos(149);
    if c1 >= 0 {
        assert(c1 * 32767 <= c2 * 32767) by (nonlinear_arith)
            requires
                c1 <= c2,
        ;
        lemma_div_is_ordered(c1 * 32767, c2 * 32767, u);
    } else if c2 <= 0 {
        assert((-c2) * 32767 <= (-c1) * 32767) by (nonlinear_arith)
            requires
                c1 <= c2,
        ;
        lemma_div_is_ordered((-c2) * 32767, (-c1) * 32767, u);
    } else {
        assert(0 <= (-c1) * 32767 && 0 <= c2 * 32767) by (nonlinear_arith)
            requires
                c1 < 0 < c2,
        ;
        lemma_div_is_ordered(0, (-c1) * 32767, u);
        lemma_div_is_ordered(0, c2 * 32767, u);
    }
}

/// A word of magnitude at least one (or infinite) gives full scale.
proof fn lemma_large_word(w: u32)
    requires
        !is_nan(w),
        exponent_field(w) >= 127,
    ensures
        sample_of_word(w) == (if is_negative(w) { -32767int } else { 32767int }),
{
    let e = exponent_field(w);
    if e < 255 {
        lemma_pow2_adds(23, (e - 1) as nat);
        if e > 127 {
            lemma_pow2_strictly_increases(149, (e + 22) as nat);
        }
        assert(pow2(23) == 0x80_0000) by {
            lemma2_to64();
        }
        assert(significand(w) * pow2((e - 1) as nat) >= pow2(23) * pow2((e - 1) as nat))
            by (nonlinear_arith)
            requires
                significand(w) >= 0x80_0000,
                pow2(23) == 0x80_0000,
        ;
    }
    lemma_pow2_pos(149);
    lemma_div_multiples_vanish(32767, unit() as int);
    assert(unit() * 32767 == 32767 * unit()) by (nonlinear_arith);
}

/// A finite word of magnitude below one: the sample is the significand times
/// 32767, shifted right by `150 - max(e, 1)`, with the word's sign.
proof fn lemma_small_word(w: u32)
    requires
        exponent_field(w) < 127,
    ensures
        ({
            let e: nat = if exponent_field(w) == 0 { 1 } else { exponent_field(w) };
            let t: int = (significand(w) * 32767) as int / pow2((150 - e) as nat) as int;
            sample_of_word(w) == (if is_negative(w) { -t } else { t })
        }),
{
    let e: nat = if exponent_field(w) == 0 { 1 } else { exponent_field(w) };
    let k = (e - 1) as nat;
    let j = (150 - e) as nat;
    let s = significand(w);
    assert(s < pow2(24)) by {
        lemma2_to64();
    }
    if k < 125 {
        lemma_pow2_strictly_increases(k, 125);
    }
    lemma_pow2_adds(24, 125);
    lemma_pow2_pos(k);
    assert(s * pow2(k) < pow2(24) * pow2(125)) by (nonlinear_arith)
        requires
            s < pow2(24),
            pow2(k) <= pow2(125),
            pow2(k) > 0,
    ;
    assert(magnitude(w) == s * pow2(k));
    assert(magnitude(w) < unit());
    assert(magnitude(w) * 32767 == (s * 32767) * pow2(k)) by (nonlinear_arith)
        requires
            magnitude(w) == s * pow2(k),
    ;
    lemma_div_pow2_cancel(s * 32767, k, j);
    assert(k + j == 149);
}

/// Converts one float word to its sample.
fn sample_from_word(w: u32) -> (r: i16)
    ensures
        r as int == sample_of_word(w),
{
    let e: u32 = (w / 0x80_0000) % 256;
    let frac: u32 = w % 0x80_0000;
    let negative = w >= 0x8000_0000;
    proof {
        lemma_sample_in_range(w);
    }
    if e == 255 && frac != 0 {
        return 0;
    }
    if e >= 127 {
        proof {
            lemma_large_word(w);
        }
        return if negative {
            -FULL_SCALE
        } else {
            FULL_SCALE
        };
    }
    proof {
        lemma_small_word(w);
    }
    let m: u64 = if e == 0 {
        frac as u64
    } else {
        frac as u64 + 0x80_0000
    };
    let shift: u64 = if e == 0 {
        149
    } else {
        150 - e as u64
    };
    let scaled: u64 = m * 32767;
    let t: u64 = if shift >= 40 {
        proof {
            assert(pow2(40) == 0x100_0000_0000) by {
                lemma2_to64_rest();
            }
            if shift > 40 {
                lemma_pow2_strictly_increases(40, shift as nat);
            }
            lemma_pow2_pos(shift as nat);
            vstd::arithmetic::div_mod::lemma_basic_div(scaled as int, pow2(shift as nat) as int);
        }
        0
    } else {
        proof {
            lemma_u64_shr_is_div(scaled, shift);
        }
        scaled >> shift
    };
    assert(t <= 32767);
    if negative {
        -(t as i16)
    } else {
        t as i16
    }
}

/// Converts little-endian float PCM bytes into 16-bit samples, one per whole
/// four-byte word; trailing bytes that do not fill a word are ignored.
pub fn f32_bytes_to_i16(bytes: &[u8]) -> (r: Vec<i16>)
    ensures
        r@ == samples_of(bytes@),
{
    let mut out: Vec<i16> = Vec::with_capacity(bytes.len() / BYTES_PER_FLOAT);
    let mut pos: usize = 0;
    let mut i: usize = 0;
    while bytes.len() - pos >= BYTES_PER_FLOAT
        invariant
            pos == 4 * i,
            pos <= bytes.len(),
            out@.len() == i,
            forall|j: int| 0 <= j < i ==> out@[j] == samples_of(bytes@)[j],
        decreases bytes.len() - pos,
    {
        let w: u32 = bytes[pos] as u32 + 256 * (bytes[pos + 1] as u32) + 65536 * (
        bytes[pos + 2] as u32) + 16777216 * (bytes[pos + 3] as u32);
        assert(i < bytes@.len() / 4);
        assert(w == word_at(bytes@, i as int));
        let s = sample_from_word(w);
        out.push(s);
        pos = pos + BYTES_PER_FLOAT;
        i = i + 1;
    }
    assert(i == bytes@.len() / 4);
    assert(out@ =~= samples_of(bytes@));
    out
}

/// Every sample produced from any bytes lies in `[-32767, 32767]`.
pub proof fn lemma_samples_in_range(bytes: Seq<u8>)
    ensures
        forall|i: int|
            0 <= i < samples_of(bytes).len() ==> -32767 <= #[trigger] samples_of(bytes)[i] <= 32767,
{
    assert forall|i: int| 0 <= i < samples_of(bytes).len() implies -32767 <= #[trigger] samples_of(
        bytes,
    )[i] <= 32767 by {
        lemma_sample_in_range(word_at(bytes, i));
    }
}

/// Saturation: a word of value at least one gives 32767, one of value at most
/// minus one gives -32767, and one strictly between gives its value times 32767
/// rounded toward zero (all values in units of `2^-149`).
pub proof fn lemma_sample_saturates(w: u32)
    requires
        !is_nan(w),
    ensures
        !is_negative(w) && (is_infinite(w) || magnitude(w) >= unit()) ==> sample_of_word(w)
            == 32767,
        is_negative(w) && (is_infinite(w) || magnitude(w) >= unit()) ==> sample_of_word(w)
            == -32767,
        !is_infinite(w) && magnitude(w) < unit() ==> sample_of_word(w) == (if is_negative(w) {
            -((magnitude(w) * 32767) as int / unit() as int)
        } else {
            (magnitude(w) * 32767) as int / unit() as int
        }),
{
    lemma_pow2_pos(149);
    lemma_div_multiples_vanish(32767, unit() as int);
    assert(unit() * 32767 == 32767 * unit()) by (nonlinear_arith);
}

/// The order of float values on non-NaN words (`-0` and `+0` are equal).
pub open spec fn value_le(a: u32, b: u32) -> bool {
    if (is_infinite(a) && is_negative(a)) || (is_infinite(b) && !is_negative(b)) {
        true
    } else if is_infinite(a) || is_infinite(b) {
        false
    } else {
        (if is_negative(a) { -(magnitude(a) as int) } else { magnitude(a) as int }) <= (if is_negative(b) {
            -(magnitude(b) as int)
        } else {
            magnitude(b) as int
        })
    }
}

/// The conversion is monotone: a smaller float never gives a larger sample.
pub proof fn lemma_sample_monotone(a: u32, b: u32)
    requires
        !is_nan(a),
        !is_nan(b),
        value_le(a, b),
    ensures
        sample_of_word(a) <= sample_of_word(b),
{
    lemma_pow2_pos(149);
    assert(clamped_value(a) <= clamped_value(b));
    lemma_truncate_monotone(clamped_value(a), clamped_value(b));
}

/// Converting two whole-word byte sequences one after the other gives the
/// samples of their concatenation.
pub proof fn lemma_samples_concat(a: Seq<u8>, b: Seq<u8>)
    requires
        a.len() % 4 == 0,
    ensures
        samples_of(a + b) == samples_of(a) + samples_of(b),
{
    let ab = a + b;
    let n = a.len() / 4;
    assert(ab.len() / 4 == n + b.len() / 4);
    assert forall|i: int| 0 <= i < samples_of(ab).len() implies #[trigger] samples_of(ab)[i] == (
    samples_of(a) + samples_of(b))[i] by {
        if i < n {
            assert(word_at(ab, i) == word_at(a, i));
        } else {
            assert(word_at(ab, i) == word_at(b, i - n));
        }
    }
    assert(samples_of(ab) =~= samples_of(a) + samples_of(b));
}

} // verus!
