use asn1_codecs::codec_data::AperCodecData;
use asn1_codecs::decode::decode_constrained_whole_number;

#[test]
fn test_decode_constrained_whole_number_range_0() {
    let data = &[0x70u8, 0, 0, 0];
    let mut codec_data = AperCodecData::from_slice(data);
    codec_data.advance_maybe_err(1, false).unwrap();
    let value = decode_constrained_whole_number(&mut codec_data, 14, 14);
    assert!(value.is_ok());
    let value = value.unwrap();
    assert_eq!(value, 14i128);
}

#[test]
fn test_decode_constrained_whole_number_lt_256() {
    let data = &[0x70u8, 0, 0, 0];
    let mut codec_data = AperCodecData::from_slice(data);
    codec_data.advance_maybe_err(1, false).unwrap();
    let value = decode_constrained_whole_number(&mut codec_data, 7, 14);
    assert!(value.is_ok());
    let value = value.unwrap();
    assert_eq!(value, 14i128);
}

#[test]
fn test_decode_constrained_whole_number_eq_256() {
    let data = &[0x80u8, 0x70u8, 0, 0];
    let mut codec_data = AperCodecData::from_slice(data);
    codec_data.advance_maybe_err(1, false).unwrap();
    let value = decode_constrained_whole_number(&mut codec_data, 0, 255);
    assert!(value.is_ok(), "{:#?}", value.err());
    let value = value.unwrap();
    assert_eq!(value, 0x70i128);
}

#[test]
fn test_decode_constrained_whole_number_lt_64k() {
    let data = &[0x00u8, 0x70u8, 0x00, 1];
    let mut codec_data = AperCodecData::from_slice(data);
    codec_data.advance_maybe_err(12, false).unwrap();
    let value = decode_constrained_whole_number(&mut codec_data, 0, 64000);
    assert!(value.is_ok(), "{:#?}", value.err());
    let value = value.unwrap();
    assert_eq!(value, 1_i128);
}

#[test]
fn test_decode_constrained_whole_number_gt_64k() {
    let data = &[0x00u8, 0x78u8, 0x01, 1, 0x01, 0x02];
    let mut codec_data = AperCodecData::from_slice(data);
    codec_data.advance_maybe_err(12, false).unwrap();
    let value = decode_constrained_whole_number(&mut codec_data, 0, 20_000_000);
    assert!(value.is_ok(), "{:#?}", value.err());
    let value = value.unwrap();
    assert_eq!(value, 16843010_i128);
}
