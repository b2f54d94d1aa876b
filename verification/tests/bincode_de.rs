use float_pigment::bincode::de::{
    element_or_end, select_variant, utf8_char_width, Deserializer,
};
use float_pigment::bincode::error::{ErrorKind, IoError};
use float_pigment::bincode::options::{options, DefaultOptions, Limit};

fn de(data: &[u8]) -> Deserializer<float_pigment::bincode::read::SliceReader<'_>> {
    Deserializer::from_slice(data, options())
}

#[test]
fn options_have_no_limit() {
    assert_eq!(options().limit, Limit::Infinite);
    assert_eq!(DefaultOptions::new().with_limit(7).limit, Limit::Bounded(7));
    assert_eq!(DefaultOptions::new().with_limit(7).with_no_limit().limit, Limit::Infinite);
}

#[test]
fn deserializer_over_a_byte_source() {
    let data = [5u8, 6];
    let reader = float_pigment::bincode::read::SliceReader::new(&data);
    let mut d = Deserializer::with_bincode_read(reader, options());
    assert_eq!(d.deserialize_byte().unwrap(), 5);
    assert_eq!(d.deserialize_byte().unwrap(), 6);
    assert!(d.is_finished());
}

#[test]
fn literals_are_little_endian() {
    let data = [0x34u8, 0x12, 0x78, 0x56, 0x34, 0x12, 1, 2, 3, 4, 5, 6, 7, 8];
    let mut d = de(&data);
    assert_eq!(d.deserialize_literal_u16().unwrap(), 0x1234);
    assert_eq!(d.deserialize_literal_u32().unwrap(), 0x1234_5678);
    assert_eq!(d.deserialize_literal_u64().unwrap(), 0x0807_0605_0403_0201);
    assert!(d.is_finished());
}

#[test]
fn varint_forms() {
    let mut d = de(&[250]);
    assert_eq!(d.deserialize_varint().unwrap(), 250);
    let mut d = de(&[251, 0x34, 0x12]);
    assert_eq!(d.deserialize_varint().unwrap(), 0x1234);
    let mut d = de(&[252, 0x78, 0x56, 0x34, 0x12]);
    assert_eq!(d.deserialize_varint().unwrap(), 0x1234_5678);
    let mut d = de(&[253, 1, 0, 0, 0, 0, 0, 0, 1]);
    assert_eq!(d.deserialize_varint().unwrap(), 0x0100_0000_0000_0001);
    let mut d = de(&[254]);
    assert!(matches!(d.deserialize_varint(), Err(ErrorKind::Custom(_))));
    let mut d = de(&[251, 1]);
    assert!(matches!(d.deserialize_varint(), Err(ErrorKind::SegmentEnded)));
}

#[test]
fn u32_and_len_bounds() {
    let mut d = de(&[253, 0, 0, 0, 0, 1, 0, 0, 0]);
    assert!(matches!(d.deserialize_u32(), Err(ErrorKind::Custom(_))));
    let mut d = de(&[252, 0xff, 0xff, 0xff, 0xff]);
    assert_eq!(d.deserialize_u32().unwrap(), u32::MAX);
    let mut d = de(&[7]);
    assert_eq!(d.deserialize_len().unwrap(), 7);
}

#[test]
fn byte_limit_is_enforced() {
    let data = [1u8, 2, 3];
    let mut d = Deserializer::from_slice(&data, DefaultOptions::new().with_limit(2));
    assert_eq!(d.deserialize_byte().unwrap(), 1);
    assert!(matches!(d.deserialize_literal_u16(), Err(ErrorKind::SizeLimit)));
    assert_eq!(d.deserialize_byte().unwrap(), 2);
    assert!(matches!(d.deserialize_byte(), Err(ErrorKind::SizeLimit)));
}

#[test]
fn segment_rest_is_skipped() {
    let data = [3u8, 1, 2, 3, 9];
    let mut d = de(&data);
    d.begin_segment_size_limit().unwrap();
    assert_eq!(d.deserialize_byte().unwrap(), 1);
    d.end_segment_size_limit().unwrap();
    assert_eq!(d.deserialize_byte().unwrap(), 9);
    assert!(d.is_finished());
}

#[test]
fn reading_past_a_segment_ends_it() {
    let data = [1u8, 5, 6, 7];
    let mut d = de(&data);
    d.begin_segment_size_limit().unwrap();
    assert!(matches!(d.deserialize_literal_u16(), Err(ErrorKind::SegmentEnded)));
    d.end_segment_size_limit().unwrap();
    assert_eq!(d.deserialize_byte().unwrap(), 6);
}

#[test]
fn nested_segments_restore_the_parent() {
    let data = [5u8, 2, 10, 11, 20, 21, 99];
    let mut d = de(&data);
    d.begin_segment_size_limit().unwrap();
    d.begin_segment_size_limit().unwrap();
    assert_eq!(d.deserialize_byte().unwrap(), 10);
    d.end_segment_size_limit().unwrap();
    assert_eq!(d.deserialize_byte().unwrap(), 20);
    assert_eq!(d.deserialize_byte().unwrap(), 21);
    assert!(matches!(d.deserialize_byte(), Err(ErrorKind::SegmentEnded)));
    d.end_segment_size_limit().unwrap();
    assert_eq!(d.deserialize_byte().unwrap(), 99);
}

#[test]
fn nested_segment_larger_than_parent_is_invalid() {
    let data = [2u8, 5, 0, 0, 0, 0, 0];
    let mut d = de(&data);
    d.begin_segment_size_limit().unwrap();
    assert!(matches!(d.begin_segment_size_limit(), Err(ErrorKind::InvalidData)));
}

#[test]
fn end_without_segment_does_nothing() {
    let data = [4u8];
    let mut d = de(&data);
    d.end_segment_size_limit().unwrap();
    assert_eq!(d.deserialize_byte().unwrap(), 4);
}

#[test]
fn vec_and_string() {
    let data = [3u8, 1, 2, 3, 5, b'h', b'e', b'l', b'l', b'o'];
    let mut d = de(&data);
    assert_eq!(d.read_vec().unwrap(), vec![1, 2, 3]);
    assert_eq!(d.read_string().unwrap(), "hello");
    let mut d = de(&[2, 0xff, 0xfe]);
    assert!(matches!(d.read_string(), Err(ErrorKind::InvalidUtf8Encoding(_))));
    let mut d = de(&[4, 1, 2]);
    assert!(matches!(
        d.read_vec(),
        Err(ErrorKind::Io(IoError::UnexpectedEof))
    ));
}

#[test]
fn chars() {
    let mut d = de("aé€😀".as_bytes());
    assert_eq!(d.deserialize_char().unwrap(), 'a');
    assert_eq!(d.deserialize_char().unwrap(), 'é');
    assert_eq!(d.deserialize_char().unwrap(), '€');
    assert_eq!(d.deserialize_char().unwrap(), '😀');
    assert!(matches!(d.deserialize_char(), Err(ErrorKind::SegmentEnded)));
    let mut d = de(&[0xff]);
    assert!(matches!(d.deserialize_char(), Err(ErrorKind::InvalidCharEncoding)));
    let mut d = de(&[0xc3]);
    assert!(matches!(d.deserialize_char(), Err(ErrorKind::InvalidCharEncoding)));
    let mut d = de(&[0xed, 0xa0, 0x80]);
    assert!(matches!(d.deserialize_char(), Err(ErrorKind::InvalidCharEncoding)));
}

#[test]
fn char_roundtrip_for_each_width() {
    for c in ['x', 'ß', '中', '🦀'] {
        let mut buf = [0u8; 4];
        let enc = c.encode_utf8(&mut buf).as_bytes().to_vec();
        assert_eq!(utf8_char_width(enc[0]), enc.len());
        let mut data = enc.clone();
        data.push(0x41);
        let mut d = de(&data);
        assert_eq!(d.deserialize_char().unwrap(), c);
        assert_eq!(d.deserialize_char().unwrap(), 'A');
    }
}

#[test]
fn utf8_widths() {
    assert_eq!(utf8_char_width(0x41), 1);
    assert_eq!(utf8_char_width(0x80), 0);
    assert_eq!(utf8_char_width(0xc1), 0);
    assert_eq!(utf8_char_width(0xc2), 2);
    assert_eq!(utf8_char_width(0xe0), 3);
    assert_eq!(utf8_char_width(0xf4), 4);
    assert_eq!(utf8_char_width(0xf5), 0);
}

#[test]
fn bools_and_tags() {
    let mut d = de(&[1, 0, 2]);
    assert_eq!(d.deserialize_bool().unwrap(), true);
    assert_eq!(d.deserialize_bool().unwrap(), false);
    assert!(matches!(d.deserialize_bool(), Err(ErrorKind::InvalidBoolEncoding(2))));
    let mut d = de(&[0, 1, 3]);
    assert_eq!(d.deserialize_option_tag().unwrap(), false);
    assert_eq!(d.deserialize_option_tag().unwrap(), true);
    assert!(matches!(d.deserialize_option_tag(), Err(ErrorKind::InvalidTagEncoding(3))));
    let mut d = de(&[0xff]);
    assert_eq!(d.deserialize_i8().unwrap(), -1);
}

#[test]
fn variant_selection() {
    let variants = ["a", "_", "c"];
    assert_eq!(select_variant(2, &variants).unwrap(), 2);
    assert_eq!(select_variant(1, &variants).unwrap(), 0);
    assert!(matches!(select_variant(7, &variants), Err(ErrorKind::InvalidTagEncoding(7))));
    assert!(matches!(select_variant(3, &variants), Err(ErrorKind::InvalidTagEncoding(3))));
    let mut d = de(&[2]);
    assert_eq!(d.deserialize_variant_index(&variants).unwrap(), 2);
    let mut d = de(&[5]);
    assert!(matches!(d.deserialize_variant_index(&variants), Err(ErrorKind::InvalidTagEncoding(5))));
}

#[test]
fn sequence_elements_end_with_segment() {
    assert_eq!(element_or_end::<u8>(Ok(3)).unwrap(), Some(3));
    assert_eq!(element_or_end::<u8>(Err(ErrorKind::SegmentEnded)).unwrap(), None);
    assert!(matches!(element_or_end::<u8>(Err(ErrorKind::SizeLimit)), Err(ErrorKind::SizeLimit)));
}

#[test]
fn io_reader_deserializer() {
    let data = [2u8, 7, 8, 9];
    let mut d = Deserializer::with_reader(&data[..], options());
    d.begin_segment_size_limit().unwrap();
    assert_eq!(d.deserialize_byte().unwrap(), 7);
    d.end_segment_size_limit().unwrap();
    assert_eq!(d.deserialize_byte().unwrap(), 9);
}

#[test]
fn segment_longer_than_the_data_ends_at_the_data() {
    let data = [9u8, 1, 2];
    let mut d = de(&data);
    d.begin_segment_size_limit().unwrap();
    assert_eq!(d.deserialize_byte().unwrap(), 1);
    assert!(matches!(d.end_segment_size_limit(), Err(ErrorKind::SegmentEnded)));
    assert!(d.is_finished());
}
