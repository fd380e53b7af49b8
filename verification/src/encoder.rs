//! The two G.711 companding laws and the encode walk over an input buffer.
//!
//! Each law is a pure function from one canonical signed 16-bit sample to
//! one companded byte. Both locate a logarithmic segment (the most
//! significant nonzero bit group of the biased, clipped magnitude) and pack
//! it with a 4-bit mantissa and a sign bit.

use vstd::arithmetic::div_mod::{
    lemma_div_basics, lemma_div_denominator, lemma_div_is_ordered, lemma_div_multiples_vanish,
    lemma_fundamental_div_mod, lemma_fundamental_div_mod_converse,
};
use vstd::arithmetic::power2::{lemma2_to64, lemma_pow2_adds, lemma_pow2_pos, lemma_pow2_strictly_increases, pow2};
use vstd::prelude::*;

use crate::decoder::decode_sample;
use crate::formats::{InputFormat, OutputFormat};

verus! {

/// μ-law bias added to the reduced magnitude before segment search.
pub const BIAS: u16 = 33;

/// μ-law clip: the biased magnitude is limited to 13 bits.
pub const CLIP: u16 = 0x1FFF;

/// One's-complement magnitude of a sample: for a negative input the bitwise
/// complement, exact even at the minimum value, where plain negation would
/// overflow.
pub open spec fn sample_magnitude(x: i16) -> int {
    if x < 0 {
        -(x as int) - 1
    } else {
        x as int
    }
}

/// Number of binary digits of `n`: zero for zero, otherwise one more than
/// for `n / 2`.
pub open spec fn bit_length(n: nat) -> nat
    decreases n,
{
    if n == 0 {
        0
    } else {
        (1 + bit_length(n / 2)) as nat
    }
}

/// The biased, clipped μ-law magnitude: the 13-bit reduction of the
/// one's-complement magnitude, plus the bias, limited to `CLIP`.
pub open spec fn mulaw_biased(x: i16) -> int {
    let m = sample_magnitude(x) / 4 + BIAS;
    if m > CLIP {
        CLIP as int
    } else {
        m
    }
}

/// Segment number of a biased magnitude: one more than its bit length
/// above the low six bits.
pub open spec fn mulaw_segment_of(m: int) -> int {
    1 + bit_length((m / 64) as nat) as int
}

/// The biased magnitude shifted down to its segment's 5-bit step, a value
/// in `[16, 31]` whose low four bits are the mantissa.
pub open spec fn mulaw_step_of(m: int) -> int {
    m / pow2(mulaw_segment_of(m) as nat) as int
}

/// Mantissa of a biased magnitude: the four bits just below the segment's
/// leading bit.
pub open spec fn mulaw_mantissa_of(m: int) -> int {
    mulaw_step_of(m) % 16
}

/// Companded distance from silence of a biased magnitude: sixteen steps
/// per segment plus the mantissa.
pub open spec fn mulaw_code_of(m: int) -> int {
    16 * (mulaw_segment_of(m) - 1) + mulaw_mantissa_of(m)
}

/// μ-law segment number of a sample.
pub open spec fn mulaw_segment(x: i16) -> int {
    mulaw_segment_of(mulaw_biased(x))
}

/// μ-law mantissa of a sample.
pub open spec fn mulaw_mantissa(x: i16) -> int {
    mulaw_mantissa_of(mulaw_biased(x))
}

/// Companded distance from silence under μ-law: zero for the quietest
/// inputs, 127 at full scale; the output byte stores its complement.
pub open spec fn mulaw_code(x: i16) -> int {
    mulaw_code_of(mulaw_biased(x))
}

/// The μ-law output byte: complemented distance from silence in the low
/// seven bits, and the sign convention of the standard (bit 7 set for
/// non-negative inputs).
pub open spec fn spec_mulaw(x: i16) -> u8 {
    let sign: int = if x >= 0 {
        128
    } else {
        0
    };
    (127 - mulaw_code(x) + sign) as u8
}

/// The A-law compressed value of a reduced magnitude `m` in `[0, 2047]`:
/// magnitudes up to 15 pass through as the linear segment; larger ones are
/// packed as sixteen times the exponent position plus the four mantissa
/// bits under the leading bit.
pub open spec fn alaw_compress(m: int) -> int {
    if m <= 15 {
        m
    } else {
        let l = bit_length(m as nat) as int;
        16 * (l - 4) + m / pow2((l - 5) as nat) as int - 16
    }
}

/// Companded distance from silence under A-law: the compressed value of the
/// magnitude reduced to the 11-bit companding domain.
pub open spec fn alaw_code(x: i16) -> int {
    alaw_compress(sample_magnitude(x) / 16)
}

/// The A-law output byte: distance from silence plus the sign bit (set for
/// non-negative inputs), with every even bit toggled per the standard's
/// line-code requirement.
pub open spec fn spec_alaw(x: i16) -> u8 {
    let sign: int = if x >= 0 {
        128
    } else {
        0
    };
    ((alaw_code(x) + sign) as u8) ^ 0x55
}

/// A number below a power of two has at most that many binary digits.
proof fn lemma_bit_length_bound(n: nat, k: nat)
    requires
        n < pow2(k),
    ensures
        bit_length(n) <= k,
    decreases k,
{
    if n == 0 {
    } else {
        assert(pow2(0) == 1 && pow2(1) == 2) by {
            lemma2_to64();
        }
        assert(k >= 1);
        let p = pow2((k - 1) as nat);
        lemma_pow2_pos((k - 1) as nat);
        lemma_pow2_adds((k - 1) as nat, 1);
        assert(pow2(k) == p * 2);
        assert(n <= 2 * p - 1);
        lemma_div_is_ordered(n as int, 2 * p - 1, 2);
        lemma_fundamental_div_mod_converse(2 * p - 1, 2, p as int - 1, 1);
        assert(n / 2 < p);
        lemma_bit_length_bound(n / 2, (k - 1) as nat);
    }
}

/// Bit length is monotone.
proof fn lemma_bit_length_mono(a: nat, b: nat)
    requires
        a <= b,
    ensures
        bit_length(a) <= bit_length(b),
    decreases b,
{
    if a == 0 {
    } else {
        lemma_div_is_ordered(a as int, b as int, 2);
        lemma_bit_length_mono(a / 2, b / 2);
    }
}

/// A positive number lies between the powers of two its bit length names.
proof fn lemma_bit_length_range(n: nat)
    requires
        n >= 1,
    ensures
        pow2((bit_length(n) - 1) as nat) <= n < pow2(bit_length(n)),
    decreases n,
{
    let l = bit_length(n);
    if n / 2 == 0 {
        assert(n == 1);
        assert(bit_length(0) == 0);
        assert(l == 1);
        assert(pow2(0) == 1 && pow2(1) == 2) by {
            lemma2_to64();
        }
    } else {
        lemma_bit_length_range(n / 2);
        let l2 = bit_length(n / 2);
        assert(l == l2 + 1);
        lemma_fundamental_div_mod(n as int, 2);
        lemma_pow2_adds((l2 - 1) as nat, 1);
        lemma_pow2_adds(l2, 1);
        assert(pow2(1) == 2) by {
            lemma2_to64();
        }
        assert(pow2(l2) == pow2((l2 - 1) as nat) * 2);
        assert(pow2(l) == pow2(l2) * 2);
        assert(n >= 2 * (n / 2)) by {
            assert(n == 2 * (n / 2) + n % 2);
        }
        assert(n >= 2 * pow2((l2 - 1) as nat));
        assert(pow2((l - 1) as nat) == pow2(l2));
        assert(n <= 2 * (n / 2) + 1);
        assert(n < 2 * pow2(l2));
    }
}

/// Conversely, the bounds pin the bit length down.
proof fn lemma_bit_length_exact(n: nat, l: nat)
    requires
        pow2((l - 1) as nat) <= n < pow2(l),
        l >= 1,
    ensures
        bit_length(n) == l,
{
    lemma_pow2_pos((l - 1) as nat);
    assert(n >= 1);
    lemma_bit_length_range(n);
    let bl = bit_length(n);
    if bl < l {
        // n < pow2(bl) <= pow2(l - 1) <= n
        if bl < l - 1 {
            lemma_pow2_strictly_increases(bl, (l - 1) as nat);
        }
        assert(false);
    }
    if bl > l {
        // n < pow2(l) <= pow2(bl - 1) <= n
        if l < bl - 1 {
            lemma_pow2_strictly_increases(l, (bl - 1) as nat);
        }
        assert(false);
    }
}

/// Divides by the `k`-th power of two, one halving at a time.
fn div_pow2_u16(x: u16, k: u16) -> (r: u16)
    requires
        k <= 16,
    ensures
        r as int == x as int / pow2(k as nat) as int,
{
    let mut r: u16 = x;
    let mut j: u16 = 0;
    proof {
        assert(pow2(0) == 1) by {
            lemma2_to64();
        }
        lemma_div_basics(x as int);
    }
    while j < k
        invariant
            j <= k,
            r as int == x as int / pow2(j as nat) as int,
        decreases k - j,
    {
        proof {
            lemma_pow2_pos(j as nat);
            lemma_pow2_adds(j as nat, 1);
            assert(pow2(1) == 2) by {
                lemma2_to64();
            }
            lemma_div_denominator(x as int, pow2(j as nat) as int, 2);
        }
        r = r / 2;
        j = j + 1;
    }
    r
}

/// Compands one canonical signed 16-bit sample to its μ-law byte.
pub fn mulaw_encode_sample(input: i16) -> (r: u8)
    ensures
        r == spec_mulaw(input),
{
    // One's-complement magnitude, reduced to the 13-bit companding domain.
    let mut sample: u16 = if input < 0 {
        ((-((input as i32) + 1)) / 4) as u16
    } else {
        ((input as i32) / 4) as u16
    };
    proof {
        lemma_div_is_ordered(sample_magnitude(input), 32767, 4);
        assert(sample as int == sample_magnitude(input) / 4);
    }

    // Bias, then clip.
    sample = sample + BIAS;
    if sample > CLIP {
        sample = CLIP;
    }
    let ghost biased = sample as int;
    proof {
        assert(biased == mulaw_biased(input));
    }

    // Locate the segment: count the bits of the biased magnitude above its
    // low six bits.
    let mut i: u16 = sample / 64;
    let mut segno: u16 = 1;
    proof {
        assert(pow2(7) == 128) by {
            lemma2_to64();
        }
        lemma_div_is_ordered(biased, 8191, 64);
        lemma_bit_length_bound((biased / 64) as nat, 7);
    }
    while i != 0
        invariant
            bit_length(i as nat) <= bit_length((biased / 64) as nat) <= 7,
            segno as int == 1 + bit_length((biased / 64) as nat) - bit_length(i as nat),
        decreases i,
    {
        proof {
            assert(bit_length(i as nat) == 1 + bit_length((i as nat) / 2));
        }
        segno = segno + 1;
        i = i / 2;
    }
    proof {
        assert(bit_length(0) == 0);
        assert(segno as int == mulaw_segment(input));
    }

    let high_nibble: u16 = 8 - segno;
    let shifted: u16 = div_pow2_u16(sample, segno);
    let low_nibble: u16 = 15 - (shifted % 16);
    proof {
        assert(shifted % 16 == mulaw_mantissa(input));
    }

    // Join the nibbles, setting bit 7 for non-negative inputs.
    if input >= 0 {
        (high_nibble * 16 + low_nibble + 128) as u8
    } else {
        (high_nibble * 16 + low_nibble) as u8
    }
}

/// Compands one canonical signed 16-bit sample to its A-law byte.
pub fn alaw_encode_sample(input: i16) -> (r: u8)
    ensures
        r == spec_alaw(input),
{
    // One's-complement magnitude, reduced to the 11-bit companding domain.
    let mut sample: u16 = if input < 0 {
        ((-((input as i32) + 1)) / 16) as u16
    } else {
        ((input as i32) / 16) as u16
    };
    let ghost m0 = sample as int;
    proof {
        lemma_div_is_ordered(sample_magnitude(input), 32767, 16);
        assert(m0 == sample_magnitude(input) / 16);
        assert(m0 <= 2047);
        lemma_div_basics(m0);
        assert(pow2(0) == 1 && pow2(1) == 2 && pow2(4) == 16 && pow2(5) == 32 && pow2(6) == 64)
            by {
            lemma2_to64();
        }
    }

    // For large enough amplitude, find the exponent by repeated halving.
    if sample > 15 {
        let mut exp_pos: u16 = 1;
        while sample > 31
            invariant
                16 <= m0 <= 2047,
                1 <= exp_pos <= 7,
                sample >= 16,
                sample as int == m0 / pow2((exp_pos - 1) as nat) as int,
            decreases sample,
        {
            proof {
                let j = (exp_pos - 1) as nat;
                assert(pow2(1) == 2 && pow2(6) == 64) by {
                    lemma2_to64();
                }
                lemma_pow2_pos(j);
                lemma_fundamental_div_mod(m0, pow2(j) as int);
                assert(m0 >= pow2(j) * 32) by (nonlinear_arith)
                    requires
                        m0 == pow2(j) * (m0 / pow2(j) as int) + m0 % pow2(j) as int,
                        m0 / pow2(j) as int >= 32,
                        m0 % pow2(j) as int >= 0,
                        pow2(j) > 0,
                ;
                if j >= 6 {
                    if j > 6 {
                        lemma_pow2_strictly_increases(6, j);
                    }
                    assert(pow2(j) * 32 >= 64 * 32) by (nonlinear_arith)
                        requires
                            pow2(j) >= 64,
                    ;
                    assert(false);
                }
                lemma_pow2_adds(j, 1);
                lemma_div_denominator(m0, pow2(j) as int, 2);
            }
            sample = sample / 2;
            exp_pos = exp_pos + 1;
        }

        proof {
            let j = (exp_pos - 1) as nat;
            lemma_pow2_pos(j);
            lemma_fundamental_div_mod(m0, pow2(j) as int);
            assert(pow2(j) * 16 <= m0 < pow2(j) * 32) by (nonlinear_arith)
                requires
                    m0 == pow2(j) * (m0 / pow2(j) as int) + m0 % pow2(j) as int,
                    16 <= m0 / pow2(j) as int,
                    m0 / (pow2(j) as int) <= 31,
                    0 <= m0 % pow2(j) as int,
                    (m0 % pow2(j) as int) < pow2(j),
                    pow2(j) > 0,
            ;
            lemma_pow2_adds(j, 4);
            lemma_pow2_adds(j, 5);
            lemma_bit_length_exact(m0 as nat, j + 5);
            assert(alaw_compress(m0) == sample as int - 16 + 16 * exp_pos as int);
        }

        // Remove the mantissa's implicit leading one and pack the exponent.
        sample = sample - 16;
        sample = sample + exp_pos * 16;
    }
    proof {
        assert(sample as int == alaw_code(input));
        assert(sample <= 127);
    }

    // Add back in the sign.
    if input >= 0 {
        sample = sample + 128;
    }

    // Toggle the even bits.
    (sample as u8) ^ 0x55
}

/// The step of a biased μ-law magnitude sits in `[16, 31]`, so its
/// mantissa is the step less the implicit leading one.
proof fn lemma_mulaw_step_range(m: int)
    requires
        33 <= m <= 8191,
    ensures
        16 <= mulaw_step_of(m) <= 31,
        mulaw_mantissa_of(m) == mulaw_step_of(m) - 16,
        1 <= mulaw_segment_of(m) <= 8,
{
    let l = bit_length((m / 64) as nat) as int;
    assert(pow2(1) == 2 && pow2(4) == 16 && pow2(5) == 32 && pow2(6) == 64 && pow2(7) == 128) by {
        lemma2_to64();
    }
    lemma_fundamental_div_mod(m, 64);
    lemma_div_is_ordered(m, 8191, 64);
    lemma_bit_length_bound((m / 64) as nat, 7);
    if m / 64 == 0 {
        assert(l == 0);
        assert(m <= 63);
        lemma_div_is_ordered(33, m, 2);
        lemma_div_is_ordered(m, 63, 2);
        assert(mulaw_step_of(m) == m / 2);
    } else {
        lemma_bit_length_range((m / 64) as nat);
        lemma_pow2_pos((l - 1) as nat);
        lemma_pow2_adds((l - 1) as nat, 6);
        lemma_pow2_adds((l + 1) as nat, 4);
        lemma_pow2_adds((l - 1) as nat, 2);
        // m sits in [pow2(l + 5), pow2(l + 6))
        assert(m >= 64 * pow2((l - 1) as nat));
        assert(m < 64 * pow2(l as nat)) by {
            lemma_pow2_adds((l - 1) as nat, 1);
        }
        let d = pow2((l + 1) as nat) as int;
        lemma_pow2_pos((l + 1) as nat);
        assert(pow2((l + 5) as nat) == d * 16) by {
            lemma_pow2_adds((l - 1) as nat, 6);
            lemma_pow2_adds((l + 1) as nat, 4);
        }
        assert(pow2((l + 6) as nat) == d * 32) by {
            lemma_pow2_adds((l + 1) as nat, 5);
        }
        assert(64 * pow2((l - 1) as nat) == pow2((l + 5) as nat)) by {
            lemma_pow2_adds((l - 1) as nat, 6);
        }
        assert(64 * pow2(l as nat) == pow2((l + 6) as nat)) by {
            lemma_pow2_adds(l as nat, 6);
        }
        lemma_div_multiples_vanish(16, d);
        lemma_div_is_ordered(d * 16, m, d);
        vstd::arithmetic::div_mod::lemma_multiply_divide_lt(m, d, 32);
    }
    let st = mulaw_step_of(m);
    vstd::arithmetic::div_mod::lemma_fundamental_div_mod_converse_mod(st, 16, 1, st - 16);
}

/// Of two biased magnitudes, the smaller one has the smaller companded
/// distance from silence.
proof fn lemma_mulaw_code_of_monotone(m1: int, m2: int)
    requires
        33 <= m1 <= m2 <= 8191,
    ensures
        mulaw_code_of(m1) <= mulaw_code_of(m2),
{
    let l1 = bit_length((m1 / 64) as nat) as int;
    let l2 = bit_length((m2 / 64) as nat) as int;
    lemma_div_is_ordered(m1, m2, 64);
    lemma_bit_length_mono((m1 / 64) as nat, (m2 / 64) as nat);
    lemma_mulaw_step_range(m1);
    lemma_mulaw_step_range(m2);
    if l1 == l2 {
        lemma_pow2_pos((l1 + 1) as nat);
        lemma_div_is_ordered(m1, m2, pow2((l1 + 1) as nat) as int);
    }
}

/// μ-law compression is magnitude-monotonic: of two samples on the same
/// side of silence, the one with the smaller one's-complement magnitude
/// compands to a distance from silence that is no greater. The output
/// byte stores the complement of that distance beside the sign bit, so
/// quieter samples never read as louder after companding.
pub proof fn lemma_mulaw_compression_monotone(x: i16, y: i16)
    requires
        (x < 0) == (y < 0),
        sample_magnitude(y) <= sample_magnitude(x),
    ensures
        mulaw_code(y) <= mulaw_code(x),
{
    lemma_div_is_ordered(0, sample_magnitude(y), 4);
    lemma_div_is_ordered(sample_magnitude(y), sample_magnitude(x), 4);
    lemma_div_is_ordered(sample_magnitude(x), 32767, 4);
    lemma_div_basics(4);
    lemma_mulaw_code_of_monotone(mulaw_biased(y), mulaw_biased(x));
}

/// The step of a reduced A-law magnitude of the upper segments sits in
/// `[16, 31]`, and its bit length names its segment.
proof fn lemma_alaw_step_range(m: int)
    requires
        16 <= m <= 2047,
    ensures
        5 <= bit_length(m as nat) <= 11,
        16 <= m / pow2((bit_length(m as nat) - 5) as nat) as int <= 31,
{
    let l = bit_length(m as nat) as int;
    assert(pow2(4) == 16 && pow2(5) == 32 && pow2(11) == 2048) by {
        lemma2_to64();
    }
    lemma_bit_length_bound(m as nat, 11);
    lemma_bit_length_exact(16, 5);
    lemma_bit_length_mono(16, m as nat);
    lemma_bit_length_range(m as nat);
    let d = pow2((l - 5) as nat) as int;
    lemma_pow2_pos((l - 5) as nat);
    assert(pow2((l - 1) as nat) == d * 16) by {
        lemma_pow2_adds((l - 5) as nat, 4);
    }
    assert(pow2(l as nat) == d * 32) by {
        lemma_pow2_adds((l - 5) as nat, 5);
    }
    lemma_div_multiples_vanish(16, d);
    lemma_div_is_ordered(d * 16, m, d);
    vstd::arithmetic::div_mod::lemma_multiply_divide_lt(m, d, 32);
}

/// Of two reduced A-law magnitudes, the smaller one compresses to the
/// smaller value.
proof fn lemma_alaw_compress_monotone(m1: int, m2: int)
    requires
        0 <= m1 <= m2 <= 2047,
    ensures
        alaw_compress(m1) <= alaw_compress(m2),
{
    if m2 <= 15 {
    } else if m1 <= 15 {
        lemma_alaw_step_range(m2);
    } else {
        let l1 = bit_length(m1 as nat) as int;
        let l2 = bit_length(m2 as nat) as int;
        lemma_bit_length_mono(m1 as nat, m2 as nat);
        lemma_alaw_step_range(m1);
        lemma_alaw_step_range(m2);
        if l1 == l2 {
            lemma_pow2_pos((l1 - 5) as nat);
            lemma_div_is_ordered(m1, m2, pow2((l1 - 5) as nat) as int);
        }
    }
}

/// A-law compression is magnitude-monotonic: of two samples on the same
/// side of silence, the one with the smaller one's-complement magnitude
/// compands to a distance from silence that is no greater. The output
/// byte stores that distance beside the sign bit before the even-bit
/// toggle, so quieter samples never read as louder after companding.
pub proof fn lemma_alaw_compression_monotone(x: i16, y: i16)
    requires
        (x < 0) == (y < 0),
        sample_magnitude(y) <= sample_magnitude(x),
    ensures
        alaw_code(y) <= alaw_code(x),
{
    lemma_div_is_ordered(0, sample_magnitude(y), 16);
    lemma_div_is_ordered(sample_magnitude(y), sample_magnitude(x), 16);
    lemma_div_is_ordered(sample_magnitude(x), 32767, 16);
    lemma_div_basics(16);
    lemma_alaw_compress_monotone(sample_magnitude(y) / 16, sample_magnitude(x) / 16);
}

/// The byte one sample compands to under the chosen law.
pub open spec fn spec_compand(output_format: OutputFormat, sample: i16) -> u8 {
    match output_format {
        OutputFormat::Mulaw => spec_mulaw(sample),
        OutputFormat::Alaw => spec_alaw(sample),
    }
}

/// The byte the `i`-th full input window encodes to: its window decoded to
/// a canonical sample, then companded.
pub open spec fn spec_encoded_byte(
    input_format: InputFormat,
    output_format: OutputFormat,
    input: Seq<u8>,
    i: int,
) -> u8 {
    let w = input_format.spec_byte_width() as int;
    spec_compand(
        output_format,
        crate::decoder::spec_decode(input_format, input.subrange(i * w, (i + 1) * w)) as i16,
    )
}

/// How many bytes an encode walk writes: one per full input window, but
/// never more than the output buffer holds.
pub open spec fn spec_encode_count(
    input_format: InputFormat,
    input_len: int,
    output_len: int,
) -> int {
    let full = input_len / input_format.spec_byte_width() as int;
    if full <= output_len {
        full
    } else {
        output_len
    }
}

/// Walks the input in non-overlapping windows of the format's byte width,
/// compands each full window to one byte of the output, and reports how
/// many bytes were written.
///
/// A trailing window shorter than the sample width is dropped silently,
/// the documented truncation policy. The walk also stops once the output
/// buffer is full, so the call is total for every buffer pair; bytes of
/// the output beyond the returned count are left untouched.
pub fn encode(
    input_format: InputFormat,
    input: &[u8],
    output_format: OutputFormat,
    output: &mut [u8],
) -> (count: usize)
    ensures
        count as int == spec_encode_count(input_format, input@.len() as int, old(output)@.len() as int),
        final(output)@.len() == old(output)@.len(),
        forall|j: int|
            0 <= j < count ==> final(output)@[j] == spec_encoded_byte(
                input_format,
                output_format,
                input@,
                j,
            ),
        forall|j: int|
            count <= j < old(output)@.len() ==> final(output)@[j] == old(output)@[j],
{
    let width = input_format.byte_width();
    let mut count: usize = 0;
    let mut offset: usize = 0;
    while count < output.len() && width <= input.len() - offset
        invariant
            1 <= width <= 8,
            width == input_format.spec_byte_width(),
            offset == count * width,
            count <= output@.len(),
            offset <= input@.len(),
            output@.len() == old(output)@.len(),
            forall|j: int|
                0 <= j < count ==> output@[j] == spec_encoded_byte(
                    input_format,
                    output_format,
                    input@,
                    j,
                ),
            forall|j: int| count <= j < output@.len() ==> output@[j] == old(output)@[j],
        decreases input@.len() - offset,
    {
        proof {
            assert((count + 1) * width == count * width + width) by (nonlinear_arith);
        }
        let window = vstd::slice::slice_subrange(input, offset, offset + width);
        let sample = decode_sample(&input_format, window);
        let byte = match output_format {
            OutputFormat::Mulaw => mulaw_encode_sample(sample),
            OutputFormat::Alaw => alaw_encode_sample(sample),
        };
        output[count] = byte;
        count = count + 1;
        offset = offset + width;
    }
    proof {
        let len = input@.len() as int;
        let w = width as int;
        if count < output@.len() {
            // the walk ran out of input: the unprocessed tail is shorter
            // than one window, so `count` is exactly the window count
            lemma_fundamental_div_mod_converse(len, w, count as int, len - count as int * w);
        } else {
            // the walk ran out of room; the input still held a full window
            if width <= input.len() - offset {
                lemma_div_multiples_vanish(count as int + 1, w);
                lemma_div_is_ordered((count as int + 1) * w, len, w);
                assert((count as int + 1) * w == count as int * w + w) by (nonlinear_arith);
            } else {
                lemma_fundamental_div_mod_converse(len, w, count as int, len - count as int * w);
            }
        }
    }
    count
}

} // verus!
