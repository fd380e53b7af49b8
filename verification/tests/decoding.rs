use law_encoder::{InputFormat, LawEncoder, OutputFormat, SampleRate};

fn mulaw_of(format: InputFormat, bytes: &[u8]) -> Vec<u8> {
    let encoder = LawEncoder {};
    let mut output = vec![0u8; bytes.len()];
    let n = encoder
        .encode(format, bytes, OutputFormat::Mulaw, &mut output)
        .unwrap();
    output.truncate(n);
    output
}

#[test]
fn wide_integer_formats_agree_on_the_fixture() {
    // the linear values 1000 and -1000 carried at every integer width
    // all compand to the same bytes as plain 16-bit input
    let expected = [206, 78];
    let r = SampleRate::Hz8000;

    let s16_be = [0x03, 0xE8, 0xFC, 0x18];
    assert_eq!(mulaw_of(InputFormat::Signed16BitBigEndian(r), &s16_be), expected);

    let s16_le = [0xE8, 0x03, 0x18, 0xFC];
    assert_eq!(mulaw_of(InputFormat::Signed16BitLittleEndian(r), &s16_le), expected);

    // 24-bit: the low 8 bits are discarded
    let s24_be = [0x03, 0xE8, 0x00, 0xFC, 0x18, 0x00];
    assert_eq!(mulaw_of(InputFormat::Signed24BitBigEndian(r), &s24_be), expected);

    let s24_le = [0x00, 0xE8, 0x03, 0x00, 0x18, 0xFC];
    assert_eq!(mulaw_of(InputFormat::Signed24BitLittleEndian(r), &s24_le), expected);

    // 32-bit: the low 16 bits are discarded
    let s32_be = [0x03, 0xE8, 0x00, 0x00, 0xFC, 0x18, 0x00, 0x00];
    assert_eq!(mulaw_of(InputFormat::Signed32BitBigEndian(r), &s32_be), expected);
}

#[test]
fn unsigned_formats_remove_their_bias() {
    let r = SampleRate::Hz8000;

    // 1000 + 32768 = 0x83E8 reads back as linear 1000
    let u16_be = [0x83, 0xE8];
    assert_eq!(mulaw_of(InputFormat::Unsigned16BitBigEndian(r), &u16_be), [206]);

    let u16_le = [0xE8, 0x83];
    assert_eq!(mulaw_of(InputFormat::Unsigned16BitLittleEndian(r), &u16_le), [206]);

    let u24_be = [0x83, 0xE8, 0x00];
    assert_eq!(mulaw_of(InputFormat::Unsigned24BitBigEndian(r), &u24_be), [206]);

    let u32_be = [0x83, 0xE8, 0x00, 0x00];
    assert_eq!(mulaw_of(InputFormat::Unsigned32BitBigEndian(r), &u32_be), [206]);

    // unsigned 8-bit midpoint is silence
    assert_eq!(
        mulaw_of(InputFormat::Unsigned8Bit(r), &[0x80]),
        [law_encoder::encoder::mulaw_encode_sample(0)]
    );
}

#[test]
fn eight_bit_samples_are_widened() {
    let r = SampleRate::Hz8000;
    // signed byte 4 widens to 1024; its 16-bit rendering agrees
    let narrow = mulaw_of(InputFormat::Signed8Bit(r), &[4]);
    let wide = mulaw_of(InputFormat::BigEndian, &[0x04, 0x00]);
    assert_eq!(narrow, wide);
    // signed byte -1 widens to -256
    let narrow_neg = mulaw_of(InputFormat::Signed8Bit(r), &[0xFF]);
    let wide_neg = mulaw_of(InputFormat::BigEndian, &[0xFF, 0x00]);
    assert_eq!(narrow_neg, wide_neg);
}

#[test]
fn float_halves_round_to_sixteen_k() {
    let r = SampleRate::Hz8000;

    // 0.5f32 is 0x3F000000; 0.5 * 32767 rounds half away from zero to 16384
    let f32_be = [0x3F, 0x00, 0x00, 0x00];
    let expected = [law_encoder::encoder::mulaw_encode_sample(16384)];
    assert_eq!(mulaw_of(InputFormat::Float32BigEndian(r), &f32_be), expected);

    let f32_le = [0x00, 0x00, 0x00, 0x3F];
    assert_eq!(mulaw_of(InputFormat::Float32LittleEndian(r), &f32_le), expected);

    // 0.5f64 is 0x3FE0000000000000
    let f64_be = [0x3F, 0xE0, 0, 0, 0, 0, 0, 0];
    assert_eq!(mulaw_of(InputFormat::Float64BigEndian(r), &f64_be), expected);

    let f64_le = [0, 0, 0, 0, 0, 0, 0xE0, 0x3F];
    assert_eq!(mulaw_of(InputFormat::Float64LittleEndian(r), &f64_le), expected);
}

#[test]
fn float_full_scale_and_beyond_clamp() {
    let r = SampleRate::Hz8000;
    let full = [law_encoder::encoder::mulaw_encode_sample(32767)];
    let full_neg = [law_encoder::encoder::mulaw_encode_sample(-32767)];

    // 1.0f32
    assert_eq!(mulaw_of(InputFormat::Float32BigEndian(r), &[0x3F, 0x80, 0, 0]), full);
    // 2.0f32 clamps to full scale
    assert_eq!(mulaw_of(InputFormat::Float32BigEndian(r), &[0x40, 0x00, 0, 0]), full);
    // -1.0f32
    assert_eq!(mulaw_of(InputFormat::Float32BigEndian(r), &[0xBF, 0x80, 0, 0]), full_neg);
}

#[test]
fn tiny_floats_decode_as_silence() {
    let r = SampleRate::Hz8000;
    let silence = [law_encoder::encoder::mulaw_encode_sample(0)];
    // 1e-9f32 is 0x3089705F: far below half a quantum
    assert_eq!(mulaw_of(InputFormat::Float32BigEndian(r), &[0x30, 0x89, 0x70, 0x5F]), silence);
    // 0.0f64
    assert_eq!(mulaw_of(InputFormat::Float64BigEndian(r), &[0; 8]), silence);
}
