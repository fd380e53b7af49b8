use law_encoder::{EncodeError, InputFormat, LawEncoder, OutputFormat};

fn setup() -> LawEncoder {
    LawEncoder {}
}

#[test]
fn num_encoded_bytes() {
    let encoder = setup();

    let bytes: [u8; 10] = [0, 1, 2, 3, 4, 5, 6, 7, 8, 9];
    let mut output: [u8; 5] = [0; 5];

    let num_encoded = encoder
        .encode(
            InputFormat::BigEndian,
            &bytes,
            OutputFormat::Mulaw,
            &mut output,
        )
        .unwrap();
    assert_eq!(num_encoded, 5);

    let empty = [0; 0];

    let num_encoded = encoder
        .encode(
            InputFormat::BigEndian,
            &empty,
            OutputFormat::Mulaw,
            &mut output,
        )
        .unwrap();
    assert_eq!(num_encoded, 0);
}

#[test]
fn correct_encoded_bytes_big_endian() {
    let encoder = setup();

    // 1000 and -1000 divided across 1 byte segments in big endian
    let bytes: [u8; 4] = [0b00000011, 0b11101000, 0b11111100, 0b00011000];
    let mut output: [u8; 2] = [0; 2];

    let _num_encoded = encoder
        .encode(
            InputFormat::BigEndian,
            &bytes,
            OutputFormat::Mulaw,
            &mut output,
        )
        .unwrap();
    assert_eq!(output, [206, 78]);

    let _num_encoded = encoder
        .encode(
            InputFormat::BigEndian,
            &bytes,
            OutputFormat::Alaw,
            &mut output,
        )
        .unwrap();
    assert_eq!(output, [250, 122])
}

#[test]
fn correct_encoded_bytes_little_endian() {
    let encoder = setup();

    // 1000 and -1000 divided across 1 byte segments in little endian
    let bytes: [u8; 4] = [0b11101000, 0b00000011, 0b00011000, 0b11111100];
    let mut output: [u8; 2] = [0; 2];

    let _num_encoded = encoder
        .encode(
            InputFormat::LittleEndian,
            &bytes,
            OutputFormat::Mulaw,
            &mut output,
        )
        .unwrap();
    assert_eq!(output, [206, 78]);

    let _num_encoded = encoder
        .encode(
            InputFormat::LittleEndian,
            &bytes,
            OutputFormat::Alaw,
            &mut output,
        )
        .unwrap();
    assert_eq!(output, [250, 122]);
}

#[test]
fn output_buffer_error() {
    let encoder = setup();

    let bytes: [u8; 20] = [0; 20];
    let mut output_buffer: [u8; 2] = [0; 2];

    let result = encoder.encode(
        InputFormat::BigEndian,
        &bytes,
        OutputFormat::Mulaw,
        &mut output_buffer,
    );

    assert!(result.is_err(), "Expected an error for ouput buffer size");
}

#[test]
fn odd_length_input() {
    let encoder = setup();

    let bytes: [u8; 3] = [0b00000011, 0b11101000, 0b11111100];
    let mut output: [u8; 2] = [0; 2];

    let num_encoded_bytes = encoder
        .encode(
            InputFormat::BigEndian,
            &bytes,
            OutputFormat::Mulaw,
            &mut output,
        )
        .unwrap();
    assert_eq!(num_encoded_bytes, 1);
    assert_eq!(output[0], 206);
    assert_eq!(output[1], 0);
}

#[test]
fn undersized_buffer_reports_error_and_writes_nothing() {
    let encoder = setup();
    let bytes: [u8; 8] = [1, 2, 3, 4, 5, 6, 7, 8];
    let mut output: [u8; 3] = [7, 7, 7];
    let result = encoder.encode(
        InputFormat::BigEndian,
        &bytes,
        OutputFormat::Alaw,
        &mut output,
    );
    assert_eq!(result, Err(EncodeError::OutputBufferTooSmall));
    assert_eq!(output, [7, 7, 7]);
}

#[test]
fn error_message_names_the_sizing_rule() {
    let e = EncodeError::OutputBufferTooSmall;
    assert_eq!(
        e.message(),
        "Output buffer is too small. Must be at least 1/2 of input size."
    );
}

#[test]
fn bytes_past_the_count_are_untouched() {
    let encoder = setup();
    let bytes: [u8; 4] = [0x03, 0xE8, 0xFC, 0x18];
    let mut output: [u8; 6] = [9, 9, 9, 9, 9, 9];
    let n = encoder
        .encode(
            InputFormat::BigEndian,
            &bytes,
            OutputFormat::Mulaw,
            &mut output,
        )
        .unwrap();
    assert_eq!(n, 2);
    assert_eq!(output, [206, 78, 9, 9, 9, 9]);
}

#[test]
fn one_byte_samples_stop_at_output_capacity() {
    let encoder = setup();
    // four one-byte samples but room for only two companded bytes:
    // the walk stops when the output is full
    let bytes: [u8; 4] = [0x00, 0x40, 0x80, 0xC0];
    let mut output: [u8; 2] = [0; 2];
    let n = encoder
        .encode(
            InputFormat::Signed8Bit(law_encoder::SampleRate::Hz8000),
            &bytes,
            OutputFormat::Mulaw,
            &mut output,
        )
        .unwrap();
    assert_eq!(n, 2);
}
