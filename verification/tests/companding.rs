use law_encoder::encoder::{alaw_encode_sample, mulaw_encode_sample};

#[test]
fn mulaw_is_total_at_the_extremes() {
    // exact values of the standard: full negative scale is 0x00, full
    // positive scale is 0x80, silence is 0xFF
    assert_eq!(mulaw_encode_sample(i16::MIN), 0x00);
    assert_eq!(mulaw_encode_sample(i16::MAX), 0x80);
    assert_eq!(mulaw_encode_sample(0), 0xFF);
    assert_eq!(mulaw_encode_sample(-1), 0x7F);
}

#[test]
fn alaw_is_total_at_the_extremes() {
    assert_eq!(alaw_encode_sample(i16::MIN), 0x2A);
    assert_eq!(alaw_encode_sample(i16::MAX), 0xAA);
    assert_eq!(alaw_encode_sample(0), 0xD5);
    assert_eq!(alaw_encode_sample(-1), 0x55);
}

#[test]
fn mulaw_matches_the_known_fixtures() {
    assert_eq!(mulaw_encode_sample(1000), 206);
    assert_eq!(mulaw_encode_sample(-1000), 78);
}

#[test]
fn alaw_matches_the_known_fixtures() {
    assert_eq!(alaw_encode_sample(1000), 250);
    assert_eq!(alaw_encode_sample(-1000), 122);
}

/// Companded distance from silence of a μ-law byte: the complement of its
/// low seven bits.
fn mulaw_distance(byte: u8) -> u8 {
    127 - (byte & 0x7F)
}

/// Companded distance from silence of an A-law byte: its low seven bits
/// after undoing the even-bit toggle.
fn alaw_distance(byte: u8) -> u8 {
    (byte ^ 0x55) & 0x7F
}

#[test]
fn mulaw_compression_is_magnitude_monotone() {
    // growing positive magnitudes never read as quieter
    let samples: [i16; 8] = [0, 1, 7, 100, 1000, 5000, 20000, i16::MAX];
    for k in 1..samples.len() {
        let lo = mulaw_distance(mulaw_encode_sample(samples[k - 1]));
        let hi = mulaw_distance(mulaw_encode_sample(samples[k]));
        assert!(lo <= hi);
    }
    // and the same on the negative side
    let negatives: [i16; 6] = [-1, -9, -250, -4097, -30000, i16::MIN];
    for k in 1..negatives.len() {
        let lo = mulaw_distance(mulaw_encode_sample(negatives[k - 1]));
        let hi = mulaw_distance(mulaw_encode_sample(negatives[k]));
        assert!(lo <= hi);
    }
}

#[test]
fn alaw_compression_is_magnitude_monotone() {
    let samples: [i16; 8] = [0, 1, 7, 100, 1000, 5000, 20000, i16::MAX];
    for k in 1..samples.len() {
        let lo = alaw_distance(alaw_encode_sample(samples[k - 1]));
        let hi = alaw_distance(alaw_encode_sample(samples[k]));
        assert!(lo <= hi);
    }
    let negatives: [i16; 6] = [-1, -9, -250, -4097, -30000, i16::MIN];
    for k in 1..negatives.len() {
        let lo = alaw_distance(alaw_encode_sample(negatives[k - 1]));
        let hi = alaw_distance(alaw_encode_sample(negatives[k]));
        assert!(lo <= hi);
    }
}

#[test]
fn sign_bit_convention_is_inverted() {
    // bit 7 set means non-negative under both laws (A-law before the toggle)
    assert_eq!(mulaw_encode_sample(1000) & 0x80, 0x80);
    assert_eq!(mulaw_encode_sample(-1000) & 0x80, 0);
    assert_eq!((alaw_encode_sample(1000) ^ 0x55) & 0x80, 0x80);
    assert_eq!((alaw_encode_sample(-1000) ^ 0x55) & 0x80, 0);
}
