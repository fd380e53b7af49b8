//! Sample-rate reduction: a fixed-coefficient 2nd-order IIR low-pass
//! filter followed by decimation at the stride the nominal rate implies.
//!
//! The coefficients are a precomputed Butterworth low-pass design, one set
//! per supported source rate, held in fixed point with eight decimal digits
//! of scale. The base 8000 Hz rate needs no filtering. The first three
//! positions of a filtered buffer keep their initial values: the recurrence
//! starts only where three prior samples exist, the documented boundary
//! behavior.

use vstd::arithmetic::div_mod::lemma_fundamental_div_mod;
use vstd::arithmetic::mul::lemma_mul_inequality;
use vstd::prelude::*;

use crate::formats::{InputFormat, SampleRate};

verus! {

/// Fixed-point scale of the filter coefficients: eight decimal digits.
pub const COEF_SCALE: i64 = 100000000;

/// One rate's 2nd-order IIR coefficient set in fixed point: feedback
/// coefficients `a1, a2` and feedforward coefficients `b0, b1, b2`, each
/// the real coefficient scaled by `COEF_SCALE`.
#[derive(Clone, Copy, Debug, PartialEq, Eq, Structural)]
pub struct ButterCoef {
    pub a1: i64,
    pub a2: i64,
    pub b0: i64,
    pub b1: i64,
    pub b2: i64,
}

/// Every stored coefficient stays within twice the fixed-point scale.
pub open spec fn coef_bounded(c: ButterCoef) -> bool {
    &&& -200000000 <= c.a1 <= 200000000
    &&& -200000000 <= c.a2 <= 200000000
    &&& -200000000 <= c.b0 <= 200000000
    &&& -200000000 <= c.b1 <= 200000000
    &&& -200000000 <= c.b2 <= 200000000
}

/// The coefficient set of a rate, or nothing for the base 8000 Hz rate,
/// which is never filtered.
pub open spec fn spec_butter_coef(rate: SampleRate) -> Option<ButterCoef> {
    match rate {
        SampleRate::Hz8000 => Option::None,
        SampleRate::Hz11025 => Option::Some(
            ButterCoef { a1: -15298021i64, a2: -17571300i64, b0: 33217330, b1: 66434660, b2: 33217330 },
        ),
        SampleRate::Hz16000 => Option::Some(
            ButterCoef { a1: 28094574, a2: -18556054i64, b0: 22615370, b1: 45230740, b2: 22615370 },
        ),
        SampleRate::Hz22050 => Option::Some(
            ButterCoef { a1: 63377541, a2: -24349338i64, b0: 15242949, b1: 30485899, b2: 15242949 },
        ),
        SampleRate::Hz32000 => Option::Some(
            ButterCoef { a1: 98947218, a2: -35029345i64, b0: 9020532, b1: 18041063, b2: 9020532 },
        ),
        SampleRate::Hz44100 => Option::Some(
            ButterCoef { a1: 123812810, a2: -45696268i64, b0: 5470864, b1: 10941729, b2: 5470864 },
        ),
        SampleRate::Hz48000 => Option::Some(
            ButterCoef { a1: 129479367, a2: -48534111i64, b0: 4763686, b1: 9527372, b2: 4763686 },
        ),
        SampleRate::Hz96000 => Option::Some(
            ButterCoef { a1: 163503648, a2: -69204512i64, b0: 1425216, b1: 2850432, b2: 1425216 },
        ),
        SampleRate::Hz192000 => Option::Some(
            ButterCoef { a1: 181560286, a2: -83122471i64, b0: 390546, b1: 781093, b2: 390546 },
        ),
    }
}

/// Looks a rate up to its filter coefficients.
pub fn get_butter_coef(sample_rate: &SampleRate) -> (r: Option<ButterCoef>)
    ensures
        r == spec_butter_coef(*sample_rate),
        match r {
            Option::Some(c) => coef_bounded(c),
            Option::None => true,
        },
{
    match sample_rate {
        SampleRate::Hz8000 => Option::None,
        SampleRate::Hz11025 => Option::Some(
            ButterCoef { a1: -15298021i64, a2: -17571300i64, b0: 33217330, b1: 66434660, b2: 33217330 },
        ),
        SampleRate::Hz16000 => Option::Some(
            ButterCoef { a1: 28094574, a2: -18556054i64, b0: 22615370, b1: 45230740, b2: 22615370 },
        ),
        SampleRate::Hz22050 => Option::Some(
            ButterCoef { a1: 63377541, a2: -24349338i64, b0: 15242949, b1: 30485899, b2: 15242949 },
        ),
        SampleRate::Hz32000 => Option::Some(
            ButterCoef { a1: 98947218, a2: -35029345i64, b0: 9020532, b1: 18041063, b2: 9020532 },
        ),
        SampleRate::Hz44100 => Option::Some(
            ButterCoef { a1: 123812810, a2: -45696268i64, b0: 5470864, b1: 10941729, b2: 5470864 },
        ),
        SampleRate::Hz48000 => Option::Some(
            ButterCoef { a1: 129479367, a2: -48534111i64, b0: 4763686, b1: 9527372, b2: 4763686 },
        ),
        SampleRate::Hz96000 => Option::Some(
            ButterCoef { a1: 163503648, a2: -69204512i64, b0: 1425216, b1: 2850432, b2: 1425216 },
        ),
        SampleRate::Hz192000 => Option::Some(
            ButterCoef { a1: 181560286, a2: -83122471i64, b0: 390546, b1: 781093, b2: 390546 },
        ),
    }
}

/// One step of the causal recurrence: feedforward on the current input
/// byte, feedback and feedforward on the two previous output positions,
/// scaled back down and limited to the byte range. A negative accumulation
/// floors at zero.
pub open spec fn lpf_step(c: ButterCoef, x: u8, y1: u8, y2: u8) -> u8 {
    let acc = c.b0 * x + (c.a1 * y1 + c.b1 * y1) + (c.a2 * y1 + c.b2 * y2);
    if acc < 0 {
        0
    } else if acc / (COEF_SCALE as int) > 255 {
        255
    } else {
        (acc / (COEF_SCALE as int)) as u8
    }
}

/// The value at position `m` of a filtered buffer: positions before 3 keep
/// the buffer's initial value; later ones follow the recurrence over the
/// two previous filtered positions.
pub open spec fn lpf_out(c: ButterCoef, input: Seq<u8>, initial: Seq<u8>, m: int) -> u8
    decreases m,
{
    if m < 3 {
        initial[m]
    } else {
        lpf_step(c, input[m], lpf_out(c, input, initial, m - 1), lpf_out(c, input, initial, m - 2))
    }
}

/// A whole buffer after the filter stage: untouched when the rate has no
/// coefficients, otherwise the recurrence applied position by position.
pub open spec fn spec_filtered(format: InputFormat, input: Seq<u8>, initial: Seq<u8>) -> Seq<u8> {
    match spec_butter_coef(format.spec_sample_rate()) {
        Option::None => initial,
        Option::Some(c) => Seq::new(initial.len(), |m: int| lpf_out(c, input, initial, m)),
    }
}

/// One scaled coefficient times one byte.
fn coef_term(c: i64, v: u8) -> (r: i64)
    requires
        -200000000 <= c <= 200000000,
    ensures
        r == c * (v as int),
        -51000000000 <= r <= 51000000000,
{
    proof {
        assert(-51000000000 <= c * (v as int) <= 51000000000) by (nonlinear_arith)
            requires
                -200000000 <= c <= 200000000,
                0 <= v as int <= 255,
        ;
    }
    c * (v as i64)
}

/// Applies the rate's low-pass filter in place over the whole buffer, or
/// leaves it untouched for the base 8000 Hz rate. The first three
/// positions always keep their initial values: the recurrence never draws
/// on fewer than three prior samples.
pub fn apply_lpf(input_format: &InputFormat, input_data: &[u8], output_buffer: &mut [u8])
    requires
        old(output_buffer)@.len() == input_data@.len(),
    ensures
        final(output_buffer)@.len() == old(output_buffer)@.len(),
        final(output_buffer)@ == spec_filtered(*input_format, input_data@, old(output_buffer)@),
        forall|m: int|
            0 <= m < 3 && m < old(output_buffer)@.len() ==> final(output_buffer)@[m] == old(
                output_buffer,
            )@[m],
{
    let coef = match get_butter_coef(&input_format.get_sample_rate()) {
        Option::Some(c) => c,
        Option::None => {
            proof {
                assert(output_buffer@ =~= spec_filtered(
                    *input_format,
                    input_data@,
                    old(output_buffer)@,
                ));
            }
            return ;
        },
    };

    let mut m: usize = 3;
    while m < input_data.len()
        invariant
            3 <= m,
            m <= input_data@.len() || m == 3,
            output_buffer@.len() == input_data@.len(),
            output_buffer@.len() == old(output_buffer)@.len(),
            spec_butter_coef(input_format.spec_sample_rate()) == Option::Some(coef),
            coef_bounded(coef),
            forall|j: int|
                0 <= j < m && j < input_data@.len() ==> output_buffer@[j] == lpf_out(
                    coef,
                    input_data@,
                    old(output_buffer)@,
                    j,
                ),
            forall|j: int|
                m <= j < input_data@.len() ==> output_buffer@[j] == old(output_buffer)@[j],
        decreases input_data@.len() - m,
    {
        let x = input_data[m];
        let y1 = output_buffer[m - 1];
        let y2 = output_buffer[m - 2];
        let acc: i64 = coef_term(coef.b0, x) + (coef_term(coef.a1, y1) + coef_term(coef.b1, y1)) + (
        coef_term(coef.a2, y1) + coef_term(coef.b2, y2));
        let filtered: u8 = if acc < 0 {
            0
        } else {
            let q = acc / COEF_SCALE;
            if q > 255 {
                255
            } else {
                q as u8
            }
        };
        proof {
            assert(filtered == lpf_step(coef, x, y1, y2));
        }
        output_buffer[m] = filtered;
        m = m + 1;
    }
    proof {
        assert(output_buffer@ =~= spec_filtered(*input_format, input_data@, old(output_buffer)@));
    }
}

/// Samples kept per stride: one for each full or started stride window.
pub open spec fn spec_decimated_count(len: int, stride: int) -> int {
    if len == 0 {
        0
    } else {
        (len - 1) / stride + 1
    }
}

/// The decimation stride a rate implies against the 8000 Hz target, never
/// less than one.
pub open spec fn spec_stride(rate_hz: u32) -> int {
    if rate_hz / 8000 == 0 {
        1int
    } else {
        (rate_hz / 8000) as int
    }
}

/// Decimates in place: keeps every stride-th byte, moved to the front;
/// positions past the kept count keep their old values.
pub fn decimate(rate_hz: u32, buffer: &mut [u8])
    ensures
        final(buffer)@.len() == old(buffer)@.len(),
        forall|i: int|
            0 <= i && i * spec_stride(rate_hz) < old(buffer)@.len() ==> final(buffer)@[i] == old(
                buffer,
            )@[i * spec_stride(rate_hz)],
        forall|i: int|
            spec_decimated_count(old(buffer)@.len() as int, spec_stride(rate_hz)) <= i < old(
                buffer,
            )@.len() ==> final(buffer)@[i] == old(buffer)@[i],
{
    let stride0 = rate_hz / 8000;
    let stride: usize = if stride0 == 0 {
        1
    } else {
        stride0 as usize
    };
    if buffer.len() == 0 {
        return ;
    }
    let kept: usize = (buffer.len() - 1) / stride + 1;
    proof {
        lemma_fundamental_div_mod(buffer@.len() as int - 1, stride as int);
        assert((kept - 1) * stride as int <= buffer@.len() - 1) by (nonlinear_arith)
            requires
                kept - 1 == (buffer@.len() as int - 1) / stride as int,
                buffer@.len() as int - 1 == stride as int * ((buffer@.len() as int - 1)
                    / stride as int) + (buffer@.len() as int - 1) % stride as int,
                (buffer@.len() as int - 1) % stride as int >= 0,
        ;
    }
    let blen = buffer.len();
    let mut i: usize = 0;
    while i < kept
        invariant
            1 <= stride,
            stride == spec_stride(rate_hz),
            buffer@.len() == old(buffer)@.len(),
            blen == buffer@.len(),
            buffer@.len() >= 1,
            kept == spec_decimated_count(buffer@.len() as int, stride as int),
            (kept - 1) * stride as int <= buffer@.len() - 1,
            i <= kept <= buffer@.len(),
            forall|j: int| 0 <= j < i ==> buffer@[j] == old(buffer)@[j * stride as int],
            forall|j: int| i <= j < buffer@.len() ==> buffer@[j] == old(buffer)@[j],
        decreases kept - i,
    {
        proof {
            lemma_mul_inequality(i as int, kept - 1, stride as int);
            assert(i as int <= i as int * stride as int) by (nonlinear_arith)
                requires
                    stride as int >= 1,
                    i as int >= 0,
            ;
        }
        let src = i * stride;
        let v = buffer[src];
        buffer[i] = v;
        i = i + 1;
    }
    proof {
        let len = buffer@.len() as int;
        let st = stride as int;
        lemma_fundamental_div_mod(len - 1, st);
        assert(kept * st >= len) by (nonlinear_arith)
            requires
                kept == (len - 1) / st + 1,
                len - 1 == st * ((len - 1) / st) + (len - 1) % st,
                (len - 1) % st < st,
                (len - 1) % st >= 0,
                st >= 1,
        ;
        assert forall|i2: int| i2 >= kept && 0 <= i2 implies #[trigger] (i2 * st) >= len by {
            lemma_mul_inequality(kept as int, i2, st);
        }
    }
}

/// Low-pass-filters the buffer at the format's nominal rate, then
/// decimates it toward the 8000 Hz target, all in place in the caller's
/// output buffer, which must be exactly as large as the input.
pub fn resample(input_format: &InputFormat, input_data: &[u8], output_buffer: &mut [u8])
    requires
        old(output_buffer)@.len() == input_data@.len(),
    ensures
        final(output_buffer)@.len() == old(output_buffer)@.len(),
        forall|i: int|
            0 <= i && i * spec_stride(input_format.spec_sample_rate().spec_as_hz()) < old(
                output_buffer,
            )@.len() ==> final(output_buffer)@[i] == spec_filtered(
                *input_format,
                input_data@,
                old(output_buffer)@,
            )[i * spec_stride(input_format.spec_sample_rate().spec_as_hz())],
        forall|i: int|
            spec_decimated_count(
                old(output_buffer)@.len() as int,
                spec_stride(input_format.spec_sample_rate().spec_as_hz()),
            ) <= i < old(output_buffer)@.len() ==> final(output_buffer)@[i] == spec_filtered(
                *input_format,
                input_data@,
                old(output_buffer)@,
            )[i],
{
    apply_lpf(input_format, input_data, output_buffer);
    decimate(input_format.get_sample_rate().as_hz(), output_buffer);
}

} // verus!
