use asn1_codecs::codec_data::{AperCodecData, AperCodecError};
use asn1_codecs::decode::{
    bits_needed_for_range, bytes_needed_for_range, decode_constrained_length_detereminent,
    decode_constrained_whole_number, decode_normally_small_length_determinent,
    decode_semi_constrained_whole_number, decode_unconstrained_length_determinent,
    decode_unconstrained_whole_number,
};
use asn1_codecs::encode::{
    encode_constrained_length_determinent, encode_constrained_whole_number,
    encode_normally_small_length_determinent, encode_semi_constrained_whole_number,
    encode_unconstrained_length_determinent, encode_unconstrained_whole_number,
};

fn round_trip_constrained(value: i128, lb: i128, ub: i128, lead: usize) {
    let mut enc = AperCodecData::new();
    for _ in 0..lead {
        enc.encode_bool(true);
    }
    encode_constrained_whole_number(&mut enc, value, lb, ub).unwrap();
    let bytes = enc.into_bytes();
    let mut dec = AperCodecData::from_slice(&bytes);
    dec.advance_maybe_err(lead, true).unwrap();
    assert_eq!(decode_constrained_whole_number(&mut dec, lb, ub), Ok(value), "{} {} {}", value, lb, ub);
}

#[test]
fn constrained_round_trip_at_band_boundaries() {
    let ranges: [i128; 14] = [1, 2, 4, 8, 16, 32, 64, 128, 255, 256, 257, 65535, 65536, 65537];
    for &range in ranges.iter() {
        for &lb in [-5i128, 0, 1000].iter() {
            let ub = lb + range - 1;
            for &value in [lb, ub, lb + range / 2].iter() {
                for lead in 0..9 {
                    round_trip_constrained(value, lb, ub, lead);
                }
            }
        }
    }
}

#[test]
fn constrained_round_trip_extreme_bounds() {
    round_trip_constrained(i128::MIN, i128::MIN, i128::MAX, 3);
    round_trip_constrained(i128::MAX, i128::MIN, i128::MAX, 3);
    round_trip_constrained(-1, i128::MIN, i128::MAX, 0);
    round_trip_constrained(20_000_000, 0, 20_000_000, 5);
}

#[test]
fn constrained_encoding_bits() {
    // range 256 aligns, then 8 bits
    let mut enc = AperCodecData::new();
    enc.encode_bool(true);
    encode_constrained_whole_number(&mut enc, 0x70, 0, 255).unwrap();
    assert_eq!(enc.into_bytes(), vec![0x80, 0x70]);
    // range 8: three bits, no alignment
    let mut enc = AperCodecData::new();
    enc.encode_bool(false);
    encode_constrained_whole_number(&mut enc, 14, 7, 14).unwrap();
    assert_eq!(enc.into_bytes(), vec![0x70]);
    // range 64001: aligned 16 bits
    let mut enc = AperCodecData::new();
    encode_constrained_whole_number(&mut enc, 1, 0, 64000).unwrap();
    assert_eq!(enc.into_bytes(), vec![0x00, 0x01]);
    // single value: no bits
    let mut enc = AperCodecData::new();
    encode_constrained_whole_number(&mut enc, 14, 14, 14).unwrap();
    assert_eq!(enc.bit_length(), 0);
}

#[test]
fn constrained_wide_encoding_bits() {
    let mut enc = AperCodecData::new();
    encode_constrained_whole_number(&mut enc, 16843010, 0, 20_000_000).unwrap();
    // length determinant 2 (three octets counted as length 3, read as four), aligned octets
    assert_eq!(enc.into_bytes(), vec![0x80, 0x01, 0x01, 0x01, 0x02]);
    let mut enc = AperCodecData::new();
    encode_constrained_whole_number(&mut enc, 5, 0, 20_000_000).unwrap();
    assert_eq!(enc.into_bytes(), vec![0x00, 0x00, 0x05]);
}

#[test]
fn constrained_errors() {
    let mut data = AperCodecData::from_slice(&[0xff, 0xff]);
    assert_eq!(decode_constrained_whole_number(&mut data, 10, 5), Err(AperCodecError::InvalidRange));
    assert_eq!(data.decode_offset(), 0);
    let mut enc = AperCodecData::new();
    assert_eq!(encode_constrained_whole_number(&mut enc, 1, 10, 5), Err(AperCodecError::InvalidRange));
    assert_eq!(encode_constrained_whole_number(&mut enc, 11, 0, 10), Err(AperCodecError::ValueOutOfRange));
    assert_eq!(enc.bit_length(), 0);
    let mut short = AperCodecData::from_slice(&[0x01]);
    assert_eq!(decode_constrained_whole_number(&mut short, 0, 64000), Err(AperCodecError::OutOfBits));
}

#[test]
fn bit_width_table() {
    for range in 0u8..=255 {
        let bits = bits_needed_for_range(range);
        let expected = match range {
            0..=1 => 0,
            2 => 1,
            3..=4 => 2,
            5..=8 => 3,
            9..=16 => 4,
            17..=32 => 5,
            33..=64 => 6,
            65..=128 => 7,
            _ => 8,
        };
        assert_eq!(bits, expected, "{}", range);
    }
}

#[test]
fn bytes_needed() {
    assert_eq!(bytes_needed_for_range(20_000_001), 4);
    assert_eq!(bytes_needed_for_range(65536), 3);
    assert_eq!(bytes_needed_for_range(65535), 2);
    assert_eq!(bytes_needed_for_range(255), 1);
    assert_eq!(bytes_needed_for_range(u128::MAX), 16);
}

#[test]
fn unconstrained_length_canonical_round_trip() {
    let mut n: usize = 0;
    while n < (1 << 21) {
        let mut enc = AperCodecData::new();
        enc.encode_bool(true);
        let r = encode_unconstrained_length_determinent(&mut enc, n);
        let fits = n < 16384 || (n % 16384 == 0 && n <= 65536);
        if fits {
            assert!(r.is_ok());
            let bytes = enc.into_bytes();
            let expected_len = if (128..16384).contains(&n) { 3 } else { 2 };
            assert_eq!(bytes.len(), expected_len, "{}", n);
            let mut dec = AperCodecData::from_slice(&bytes);
            dec.advance_maybe_err(1, true).unwrap();
            assert_eq!(decode_unconstrained_length_determinent(&mut dec), Ok(n));
        } else {
            assert_eq!(r, Err(AperCodecError::ValueOutOfRange));
            assert_eq!(enc.bit_length(), 1);
        }
        n += if n < 20000 { 1 } else { 4093 };
    }
}

#[test]
fn unconstrained_length_forms() {
    let mut enc = AperCodecData::new();
    encode_unconstrained_length_determinent(&mut enc, 127).unwrap();
    encode_unconstrained_length_determinent(&mut enc, 128).unwrap();
    encode_unconstrained_length_determinent(&mut enc, 32768).unwrap();
    assert_eq!(enc.into_bytes(), vec![0x7f, 0xc0, 0x80, 0x82]);
}

#[test]
fn invalid_multiplier_rejection() {
    let mut zero = AperCodecData::from_slice(&[0x80]);
    assert_eq!(decode_unconstrained_length_determinent(&mut zero), Err(AperCodecError::InvalidLengthMultiplier));
    let mut five = AperCodecData::from_slice(&[0x85]);
    assert_eq!(decode_unconstrained_length_determinent(&mut five), Err(AperCodecError::InvalidLengthMultiplier));
    let mut one = AperCodecData::from_slice(&[0x81]);
    assert_eq!(decode_unconstrained_length_determinent(&mut one), Ok(16384));
    let mut four = AperCodecData::from_slice(&[0x84]);
    assert_eq!(decode_unconstrained_length_determinent(&mut four), Ok(65536));
}

#[test]
fn normally_small_forms() {
    for v in 1usize..=70 {
        let mut enc = AperCodecData::new();
        encode_normally_small_length_determinent(&mut enc, v).unwrap();
        let bytes = enc.into_bytes();
        assert_eq!(bytes[0] & 0x80 != 0, v > 64, "{}", v);
        let mut dec = AperCodecData::from_slice(&bytes);
        assert_eq!(decode_normally_small_length_determinent(&mut dec), Ok(v));
    }
    let mut enc = AperCodecData::new();
    encode_normally_small_length_determinent(&mut enc, 1).unwrap();
    assert_eq!(enc.bit_length(), 7);
    assert_eq!(enc.into_bytes(), vec![0x00]);
    let mut enc = AperCodecData::new();
    encode_normally_small_length_determinent(&mut enc, 64).unwrap();
    assert_eq!(enc.into_bytes(), vec![0x7e]);
    let mut enc = AperCodecData::new();
    assert_eq!(encode_normally_small_length_determinent(&mut enc, 16385), Err(AperCodecError::ValueOutOfRange));
    assert_eq!(enc.bit_length(), 0);
}

#[test]
fn constrained_length() {
    let mut enc = AperCodecData::new();
    encode_constrained_length_determinent(&mut enc, 3, 1, 4).unwrap();
    assert_eq!(enc.into_bytes(), vec![0x80]);
    let mut dec = AperCodecData::from_slice(&[0x80]);
    assert_eq!(decode_constrained_length_detereminent(&mut dec, 1, 4), Ok(3));
    let mut dec = AperCodecData::from_slice(&[0x80, 0, 0]);
    assert_eq!(decode_constrained_length_detereminent(&mut dec, 0, 70000), Err(AperCodecError::UnsupportedRange));
    assert_eq!(decode_constrained_length_detereminent(&mut dec, 5, 4), Err(AperCodecError::InvalidRange));
    let mut enc = AperCodecData::new();
    assert_eq!(encode_constrained_length_determinent(&mut enc, 1, 0, 65535), Err(AperCodecError::UnsupportedRange));
}

#[test]
fn semi_constrained_round_trip() {
    for &(value, lb) in [(0i128, 0i128), (255, 0), (256, 0), (-10, -100), (i128::MAX, i128::MIN), (5, 5)].iter() {
        let mut enc = AperCodecData::new();
        enc.encode_bool(true);
        encode_semi_constrained_whole_number(&mut enc, value, lb).unwrap();
        let bytes = enc.into_bytes();
        let mut dec = AperCodecData::from_slice(&bytes);
        dec.advance_maybe_err(1, true).unwrap();
        assert_eq!(decode_semi_constrained_whole_number(&mut dec, lb), Ok(value));
    }
    let mut enc = AperCodecData::new();
    encode_semi_constrained_whole_number(&mut enc, 300, 0).unwrap();
    assert_eq!(enc.into_bytes(), vec![0x02, 0x01, 0x2c]);
    let mut enc = AperCodecData::new();
    assert_eq!(encode_semi_constrained_whole_number(&mut enc, 1, 2), Err(AperCodecError::ValueOutOfRange));
}

#[test]
fn unconstrained_whole_number_round_trip() {
    for &value in [0i128, 1, 127, 128, 65535, -1, i128::MIN, i128::MAX].iter() {
        let mut enc = AperCodecData::new();
        encode_unconstrained_whole_number(&mut enc, value);
        let bytes = enc.into_bytes();
        let mut dec = AperCodecData::from_slice(&bytes);
        assert_eq!(decode_unconstrained_whole_number(&mut dec), Ok(value));
    }
    let mut enc = AperCodecData::new();
    encode_unconstrained_whole_number(&mut enc, 0x1234);
    assert_eq!(enc.into_bytes(), vec![0x02, 0x12, 0x34]);
    let mut dec = AperCodecData::from_slice(&[0x01, 0xff]);
    assert_eq!(decode_unconstrained_whole_number(&mut dec), Ok(255));
}

#[test]
fn bit_cursor_primitives() {
    let mut data = AperCodecData::from_slice(&[0xa5, 0x0f]);
    assert_eq!(data.bit_length(), 16);
    assert_eq!(data.decode_bool(), Ok(true));
    assert_eq!(data.decode_bits_as_integer(3), Ok(0b010));
    assert_eq!(data.decode_bits_as_integer(0), Ok(0));
    assert_eq!(data.decode_align(), Ok(()));
    assert_eq!(data.decode_offset(), 8);
    assert_eq!(data.decode_bits_as_integer(9), Err(AperCodecError::OutOfBits));
    assert_eq!(data.decode_offset(), 8);
    assert_eq!(data.decode_bits_as_integer(8), Ok(0x0f));
    assert_eq!(data.decode_bool(), Err(AperCodecError::OutOfBits));

    let mut data = AperCodecData::from_slice(&[0x00]);
    assert_eq!(data.advance_maybe_err(9, true), Err(AperCodecError::OutOfBits));
    assert_eq!(data.decode_offset(), 0);
    assert_eq!(data.advance_maybe_err(9, false), Ok(()));
    assert_eq!(data.decode_offset(), 8);

    let all = [0xffu8; 16];
    let mut data = AperCodecData::from_slice(&all);
    assert_eq!(data.decode_bits_as_integer(128), Ok(-1));

    let mut enc = AperCodecData::new();
    enc.encode_bits_from_integer(5, 3).unwrap();
    assert_eq!(enc.encode_bits_from_integer(8, 3), Err(AperCodecError::ValueOutOfRange));
    enc.encode_align();
    enc.encode_bits_from_integer(0xab, 8).unwrap();
    assert_eq!(enc.into_bytes(), vec![0xa0, 0xab]);
}
