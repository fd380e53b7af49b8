//! The sample decoder: one byte window in, one canonical signed 16-bit
//! linear sample out.
//!
//! A window is interpreted as the integer or float value its format
//! describes, then linearly rescaled into the full signed 16-bit range:
//! narrow integers are widened, wide ones keep their high 16 bits, unsigned
//! ones have their bias removed, and floats in `[-1.0, 1.0]` are scaled by
//! 32767 and rounded.

use vstd::arithmetic::div_mod::lemma_basic_div;
use vstd::arithmetic::power2::{lemma2_to64, lemma2_to64_rest, lemma_pow2_adds, lemma_pow2_pos, pow2};
use vstd::prelude::*;

use crate::formats::{get_byte_depth_endianness, InputFormat};

verus! {

/// Value of a byte sequence read most-significant byte first.
pub open spec fn be_word(s: Seq<u8>) -> int
    decreases s.len(),
{
    if s.len() == 0 {
        0
    } else {
        be_word(s.drop_last()) * 256 + s.last()
    }
}

/// Value of a byte sequence read least-significant byte first.
pub open spec fn le_word(s: Seq<u8>) -> int
    decreases s.len(),
{
    if s.len() == 0 {
        0
    } else {
        s.first() + 256 * le_word(s.drop_first())
    }
}

/// Value of one sample window in the given byte order.
pub open spec fn pcm_word(s: Seq<u8>, little: bool) -> int {
    if little {
        le_word(s)
    } else {
        be_word(s)
    }
}

/// Reads a 16-bit pattern as two's-complement.
pub open spec fn as_canonical16(v: int) -> int {
    if v < 32768 {
        v
    } else {
        v - 65536
    }
}

/// Quotient of `n / d` rounded to the nearest integer, halves away from
/// zero (operands non-negative).
pub open spec fn round_div(n: int, d: int) -> int {
    (2 * n + d) / (2 * d)
}

/// The canonical sample a window of bytes decodes to under a format: an
/// integer in `[-32768, 32767]`, assuming the window is exactly the
/// format's byte width.
pub open spec fn spec_decode(format: InputFormat, s: Seq<u8>) -> int {
    match format {
        InputFormat::BigEndian => as_canonical16(be_word(s)),
        InputFormat::LittleEndian => as_canonical16(le_word(s)),
        InputFormat::Signed8Bit(_) => as_canonical16(be_word(s) * 256),
        InputFormat::Unsigned8Bit(_) => be_word(s) * 256 - 32768,
        InputFormat::Signed16BitBigEndian(_) => as_canonical16(be_word(s)),
        InputFormat::Signed16BitLittleEndian(_) => as_canonical16(le_word(s)),
        InputFormat::Unsigned16BitBigEndian(_) => be_word(s) - 32768,
        InputFormat::Unsigned16BitLittleEndian(_) => le_word(s) - 32768,
        InputFormat::Signed24BitBigEndian(_) => as_canonical16(be_word(s) / 256),
        InputFormat::Signed24BitLittleEndian(_) => as_canonical16(le_word(s) / 256),
        InputFormat::Unsigned24BitBigEndian(_) => be_word(s) / 256 - 32768,
        InputFormat::Unsigned24BitLittleEndian(_) => le_word(s) / 256 - 32768,
        InputFormat::Signed32BitBigEndian(_) => as_canonical16(be_word(s) / 65536),
        InputFormat::Signed32BitLittleEndian(_) => as_canonical16(le_word(s) / 65536),
        InputFormat::Unsigned32BitBigEndian(_) => be_word(s) / 65536 - 32768,
        InputFormat::Unsigned32BitLittleEndian(_) => le_word(s) / 65536 - 32768,
        InputFormat::Float32BigEndian(_) => spec_decode_f32(be_word(s) as u32),
        InputFormat::Float32LittleEndian(_) => spec_decode_f32(le_word(s) as u32),
        InputFormat::Float64BigEndian(_) => spec_decode_f64(be_word(s) as u64),
        InputFormat::Float64LittleEndian(_) => spec_decode_f64(le_word(s) as u64),
    }
}

/// Magnitude of a 32-bit IEEE pattern scaled by 32767 and rounded, clamped
/// to 32767. Infinities clamp; a NaN pattern decodes as silence. Denormals
/// share the smallest exponent.
pub open spec fn f32_scaled_magnitude(bits: u32) -> int {
    let e = (bits / 0x800000) as int % 256;
    let f = bits as int % 0x800000;
    if e == 255 {
        if f == 0 {
            32767
        } else {
            0
        }
    } else if e >= 127 {
        32767
    } else {
        let mant = if e == 0 {
            f
        } else {
            f + 0x800000
        };
        let ex = if e == 0 {
            1
        } else {
            e
        };
        round_div(32767 * mant, pow2((150 - ex) as nat) as int)
    }
}

/// A 32-bit IEEE float scaled into the canonical sample range.
pub open spec fn spec_decode_f32(bits: u32) -> int {
    if bits / 0x80000000 == 1 {
        -f32_scaled_magnitude(bits)
    } else {
        f32_scaled_magnitude(bits)
    }
}

/// Magnitude of a 64-bit IEEE pattern scaled by 32767 and rounded, clamped
/// to 32767, as for the 32-bit form.
pub open spec fn f64_scaled_magnitude(bits: u64) -> int {
    let e = (bits / 0x10000000000000) as int % 2048;
    let f = bits as int % 0x10000000000000;
    if e == 2047 {
        if f == 0 {
            32767
        } else {
            0
        }
    } else if e >= 1023 {
        32767
    } else {
        let mant = if e == 0 {
            f
        } else {
            f + 0x10000000000000
        };
        let ex = if e == 0 {
            1
        } else {
            e
        };
        round_div(32767 * mant, pow2((1075 - ex) as nat) as int)
    }
}

/// A 64-bit IEEE float scaled into the canonical sample range.
pub open spec fn spec_decode_f64(bits: u64) -> int {
    if bits / 0x8000000000000000 == 1 {
        -f64_scaled_magnitude(bits)
    } else {
        f64_scaled_magnitude(bits)
    }
}

/// Reads one window of up to eight bytes as an unsigned word in the given
/// byte order.
fn read_word(window: &[u8], little: bool) -> (w: u64)
    requires
        1 <= window@.len() <= 8,
    ensures
        w as int == pcm_word(window@, little),
        (w as int) < pow2((8 * window@.len()) as nat),
{
    let n = window.len();
    let mut w: u64 = 0;
    let mut i: usize = 0;
    proof {
        assert(pow2(0) == 1) by {
            lemma2_to64();
        }
        assert(window@.skip(n as int) =~= Seq::<u8>::empty());
        assert(window@.take(0) =~= Seq::<u8>::empty());
    }
    while i < n
        invariant
            i <= n,
            n == window@.len() <= 8,
            little ==> w as int == le_word(window@.skip((n - i) as int)),
            !little ==> w as int == be_word(window@.take(i as int)),
            (w as int) < pow2((8 * i) as nat),
        decreases n - i,
    {
        proof {
            assert(pow2(8) == 256 && pow2(64) == 0x10000000000000000) by {
                lemma2_to64();
                lemma2_to64_rest();
            }
            lemma_pow2_adds((8 * i) as nat, 8);
            assert(w as int * 256 + 255 < pow2((8 * (i + 1)) as nat)) by (nonlinear_arith)
                requires
                    (w as int) < pow2((8 * i) as nat),
                    pow2((8 * (i + 1)) as nat) == pow2((8 * i) as nat) * 256,
            ;
            if 8 * (i + 1) < 64 {
                vstd::arithmetic::power2::lemma_pow2_strictly_increases((8 * (i + 1)) as nat, 64);
            }
        }
        let b: u8 = if little {
            window[n - 1 - i]
        } else {
            window[i]
        };
        proof {
            if little {
                let k = (n - i) as int;
                assert(window@.skip(k - 1).drop_first() =~= window@.skip(k));
                assert(window@.skip(k - 1).first() == window@[k - 1]);
            } else {
                assert(window@.take(i + 1).drop_last() =~= window@.take(i as int));
                assert(window@.take(i + 1).last() == window@[i as int]);
            }
        }
        w = w * 256 + (b as u64);
        i = i + 1;
    }
    proof {
        assert(window@.take(n as int) =~= window@);
        assert(window@.skip(0) =~= window@);
    }
    w
}

/// Computes a power of two small enough for the rounding core.
fn pow2_u128(k: u32) -> (r: u128)
    requires
        k <= 70,
    ensures
        r as int == pow2(k as nat),
{
    let mut r: u128 = 1;
    let mut j: u32 = 0;
    proof {
        assert(pow2(0) == 1) by {
            lemma2_to64();
        }
    }
    while j < k
        invariant
            j < k <= 70 || j == k,
            r as int == pow2(j as nat),
        decreases k - j,
    {
        proof {
            lemma_pow2_adds(j as nat, 1);
            assert(pow2(1) == 2) by {
                lemma2_to64();
            }
            if ((j + 1) as nat) < 120 {
                vstd::arithmetic::power2::lemma_pow2_strictly_increases((j + 1) as nat, 120);
            }
            assert(pow2(120) < 0x100000000000000000000000000000000) by {
                lemma2_to64();
                lemma2_to64_rest();
                lemma_pow2_adds(64, 56);
            }
        }
        r = r * 2;
        j = j + 1;
    }
    r
}

/// Rounding core shared by both float widths: `32767 * mant / 2^shift`,
/// rounded to nearest with halves away from zero. The preconditions say the
/// value being scaled is below full scale, so the result needs no clamp.
fn round_scale(mant: u64, shift: u32) -> (r: u16)
    requires
        mant < 0x20000000000000,
        (mant as int) < pow2(shift as nat),
        shift <= 70,
    ensures
        r as int == round_div(32767 * mant as int, pow2(shift as nat) as int),
        r <= 32767,
{
    let d: u128 = pow2_u128(shift);
    proof {
        lemma_pow2_pos(shift as nat);
        assert(32767 * (mant as int) < 32767 * (d as int)) by (nonlinear_arith)
            requires
                (mant as int) < (d as int),
                d as int > 0,
        ;
        assert(2 * (32767 * (mant as int)) + (d as int) < (2 * d as int) * 32768) by (nonlinear_arith)
            requires
                32767 * (mant as int) < 32767 * (d as int),
                d as int > 0,
        ;
        vstd::arithmetic::div_mod::lemma_multiply_divide_lt(
            2 * (32767 * (mant as int)) + d as int,
            2 * d as int,
            32768,
        );
    }
    proof {
        assert(pow2(70) == 0x400000000000000000) by {
            lemma2_to64();
            lemma2_to64_rest();
            lemma_pow2_adds(64, 6);
        }
        if shift < 70 {
            vstd::arithmetic::power2::lemma_pow2_strictly_increases(shift as nat, 70);
        }
    }
    let n2: u128 = 2 * 32767 * (mant as u128);
    let q: u128 = (n2 + d) / (2 * d);
    q as u16
}

/// Below this exponent a scaled 32-bit float magnitude rounds to zero.
const F32_SILENT_EXP: u32 = 110;

/// Decodes a 32-bit IEEE bit pattern to a canonical sample.
fn decode_f32_bits(bits: u32) -> (s: i16)
    ensures
        s as int == spec_decode_f32(bits),
{
    let e: u32 = (bits / 0x800000) % 256;
    let f: u32 = bits % 0x800000;
    let mag: u16 = if e == 255 {
        if f == 0 {
            32767
        } else {
            0
        }
    } else if e >= 127 {
        32767
    } else if e <= F32_SILENT_EXP {
        proof {
            let mant = if e == 0 { f as int } else { f + 0x800000 };
            let shift = (150 - (if e == 0 { 1int } else { e as int })) as nat;
            assert(pow2(40) == 0x10000000000) by {
                lemma2_to64();
                lemma2_to64_rest();
            }
            if 40 < shift {
                vstd::arithmetic::power2::lemma_pow2_strictly_increases(40, shift);
            }
            lemma_round_to_silence(mant, shift);
        }
        0
    } else {
        proof {
            assert(pow2(24) == 0x1000000) by {
                lemma2_to64();
            }
            if 24 < 150 - e {
                vstd::arithmetic::power2::lemma_pow2_strictly_increases(24, (150 - e) as nat);
            }
        }
        round_scale((f + 0x800000) as u64, 150 - e)
    };
    if bits / 0x80000000 == 1 {
        -(mag as i16)
    } else {
        mag as i16
    }
}

/// Below this exponent a scaled 64-bit float magnitude rounds to zero.
const F64_SILENT_EXP: u64 = 1006;

/// Decodes a 64-bit IEEE bit pattern to a canonical sample.
fn decode_f64_bits(bits: u64) -> (s: i16)
    ensures
        s as int == spec_decode_f64(bits),
{
    let e: u64 = (bits / 0x10000000000000) % 2048;
    let f: u64 = bits % 0x10000000000000;
    let mag: u16 = if e == 2047 {
        if f == 0 {
            32767
        } else {
            0
        }
    } else if e >= 1023 {
        32767
    } else if e <= F64_SILENT_EXP {
        proof {
            let mant = if e == 0 { f as int } else { f + 0x10000000000000 };
            let shift = (1075 - (if e == 0 { 1int } else { e as int })) as nat;
            assert(pow2(69) == 0x200000000000000000) by {
                lemma2_to64();
                lemma2_to64_rest();
                lemma_pow2_adds(64, 5);
            }
            if 69 < shift {
                vstd::arithmetic::power2::lemma_pow2_strictly_increases(69, shift);
            }
            lemma_round_to_silence(mant, shift);
        }
        0
    } else {
        proof {
            assert(pow2(53) == 0x20000000000000) by {
                lemma2_to64();
                lemma2_to64_rest();
            }
            if 53 < 1075 - e {
                vstd::arithmetic::power2::lemma_pow2_strictly_increases(53, (1075 - e) as nat);
            }
        }
        round_scale(f + 0x10000000000000, (1075 - e) as u32)
    };
    if bits / 0x8000000000000000 == 1 {
        -(mag as i16)
    } else {
        mag as i16
    }
}

/// A magnitude more than one bit below the rounding divisor scales to zero.
proof fn lemma_round_to_silence(mant: int, shift: nat)
    requires
        0 <= mant,
        2 * (32767 * mant) < pow2(shift),
    ensures
        round_div(32767 * mant, pow2(shift) as int) == 0,
{
    let d = pow2(shift) as int;
    lemma_pow2_pos(shift);
    lemma_basic_div(2 * (32767 * mant) + d, 2 * d);
}

/// Reinterprets a 16-bit pattern as a signed sample.
fn canonical16(v: u32) -> (s: i16)
    requires
        v < 65536,
    ensures
        s as int == as_canonical16(v as int),
{
    if v < 32768 {
        v as i16
    } else {
        ((v as i64) - 65536) as i16
    }
}

/// Decodes one sample window to canonical signed 16-bit linear form.
///
/// The window must be exactly the format's byte width; the encode walk
/// never hands a shorter one in (a trailing partial window is dropped).
pub fn decode_sample(format: &InputFormat, window: &[u8]) -> (s: i16)
    requires
        window@.len() == format.spec_byte_width(),
    ensures
        s as int == spec_decode(*format, window@),
{
    let (width, little) = get_byte_depth_endianness(format);
    let word: u64 = read_word(window, little);
    proof {
        assert(pow2(8) == 256 && pow2(16) == 65536 && pow2(24) == 0x1000000 && pow2(32)
            == 0x100000000) by {
            lemma2_to64();
        }
    }
    match format {
        InputFormat::BigEndian
        | InputFormat::LittleEndian
        | InputFormat::Signed16BitBigEndian(_)
        | InputFormat::Signed16BitLittleEndian(_) => canonical16(word as u32),
        InputFormat::Signed8Bit(_) => canonical16((word as u32) * 256),
        InputFormat::Unsigned8Bit(_) => (((word as i64) * 256) - 32768) as i16,
        InputFormat::Unsigned16BitBigEndian(_) | InputFormat::Unsigned16BitLittleEndian(_) => (
        (word as i64) - 32768) as i16,
        InputFormat::Signed24BitBigEndian(_) | InputFormat::Signed24BitLittleEndian(_) => canonical16(
            (word / 256) as u32,
        ),
        InputFormat::Unsigned24BitBigEndian(_) | InputFormat::Unsigned24BitLittleEndian(_) => (((
        word / 256) as i64) - 32768) as i16,
        InputFormat::Signed32BitBigEndian(_) | InputFormat::Signed32BitLittleEndian(_) => canonical16(
            (word / 65536) as u32,
        ),
        InputFormat::Unsigned32BitBigEndian(_) | InputFormat::Unsigned32BitLittleEndian(_) => (((
        word / 65536) as i64) - 32768) as i16,
        InputFormat::Float32BigEndian(_) | InputFormat::Float32LittleEndian(_) => decode_f32_bits(
            word as u32,
        ),
        InputFormat::Float64BigEndian(_) | InputFormat::Float64LittleEndian(_) => decode_f64_bits(
            word,
        ),
    }
}

} // verus!
