use law_encoder::downsampler::apply_lpf;
use law_encoder::{resample, InputFormat, SampleRate};

#[test]
fn filter_leaves_the_first_three_positions_alone() {
    let input = [50, 60, 70, 80, 90];
    let mut output = [9, 9, 9, 0, 0];
    apply_lpf(
        &InputFormat::Signed16BitBigEndian(SampleRate::Hz16000),
        &input,
        &mut output,
    );
    // the recurrence never draws on fewer than three prior samples
    assert_eq!(&output[..3], &[9, 9, 9]);
}

#[test]
fn base_rate_is_never_filtered() {
    let input = [10, 20, 30, 40, 50, 60];
    let mut output = [1, 2, 3, 4, 5, 6];
    apply_lpf(&InputFormat::BigEndian, &input, &mut output);
    assert_eq!(output, [1, 2, 3, 4, 5, 6]);
}

#[test]
fn filter_follows_the_fixed_point_recurrence() {
    // At 16000 Hz: b0 = 0.2261537 in eight-digit fixed point. With zeroed
    // prior outputs, position 3 is b0 * x[3] scaled down: 0.2261537 * 100
    // truncates to 22. Position 4 then draws on position 3.
    let input = [10, 20, 30, 100, 50];
    let mut output = [0u8; 5];
    apply_lpf(
        &InputFormat::Signed16BitBigEndian(SampleRate::Hz16000),
        &input,
        &mut output,
    );
    assert_eq!(&output[..3], &[0, 0, 0]);
    assert_eq!(output[3], 22);
    // b0*50 + (a1 + b1 + a2)*22 = 1130768500 + 54769260*22 = 2335692220,
    // scaled down to 23
    assert_eq!(output[4], 23);
}

#[test]
fn resample_decimates_at_the_rate_stride() {
    // 16000 Hz decimates by 2 toward the 8000 Hz target: kept samples are
    // the filtered positions 0, 2 and 4, moved to the front; positions past
    // the kept count keep their filtered values
    let input = [10, 20, 30, 100, 50];
    let mut output = [0u8; 5];
    resample(
        &InputFormat::Signed16BitBigEndian(SampleRate::Hz16000),
        &input,
        &mut output,
    );
    assert_eq!(output, [0, 0, 23, 22, 23]);
}

#[test]
fn resample_at_base_rate_changes_nothing() {
    // 8000 Hz: no coefficients and a stride of one
    let input = [10, 20, 30, 40];
    let mut output = [5, 6, 7, 8];
    resample(&InputFormat::LittleEndian, &input, &mut output);
    assert_eq!(output, [5, 6, 7, 8]);
}
