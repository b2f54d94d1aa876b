use float_pigment::bincode::error::ErrorKind;
use float_pigment::bincode::read::{BincodeRead, IoReader, SliceReader};

#[test]
fn test_fill_buffer() {
    let buffer = vec![0u8; 64];
    let mut reader = IoReader::new(buffer.as_slice());

    reader.fill_buffer(20).unwrap();
    assert_eq!(20, reader.temp_buffer_len());

    reader.fill_buffer(30).unwrap();
    assert_eq!(30, reader.temp_buffer_len());

    reader.fill_buffer(5).unwrap();
    assert_eq!(5, reader.temp_buffer_len());
}

#[test]
fn fill_buffer_past_the_end_is_segment_ended() {
    let buffer = vec![1u8; 4];
    let mut reader = IoReader::new(buffer.as_slice());
    assert!(matches!(reader.fill_buffer(5), Err(ErrorKind::SegmentEnded)));
}

#[test]
fn fill_buffer_past_the_barrier_skips_to_it() {
    let buffer: Vec<u8> = (0u8..10).collect();
    let mut reader = IoReader::new(buffer.as_slice());
    reader.set_barrier(3);
    assert!(matches!(reader.fill_buffer(4), Err(ErrorKind::SegmentEnded)));
    assert_eq!(reader.barrier(), 0);
    reader.set_barrier(usize::MAX);
    let v = reader.get_byte_buffer(2).unwrap();
    assert_eq!(v, vec![3, 4]);
}

#[test]
fn slice_reader_reads_in_order() {
    let data = [1u8, 2, 3, 4, 5];
    let mut reader = SliceReader::new(&data);
    assert_eq!(reader.get_byte_slice(2).unwrap(), &[1, 2]);
    let mut out = vec![0u8; 2];
    reader.read_exact(&mut out).unwrap();
    assert_eq!(out, vec![3, 4]);
    assert!(!reader.is_finished());
    assert_eq!(reader.get_byte_buffer(1).unwrap(), vec![5]);
    assert!(reader.is_finished());
}

#[test]
fn slice_reader_short_slice_is_io_eof() {
    let data = [1u8, 2];
    let mut reader = SliceReader::new(&data);
    assert!(matches!(
        reader.get_byte_slice(3),
        Err(ErrorKind::Io(float_pigment::bincode::error::IoError::UnexpectedEof))
    ));
}

#[test]
fn slice_reader_barrier_skips_segment_rest() {
    let data = [1u8, 2, 3, 4, 5];
    let mut reader = SliceReader::new(&data);
    reader.set_barrier(2);
    assert!(matches!(reader.get_byte_slice(3), Err(ErrorKind::SegmentEnded)));
    assert_eq!(reader.barrier(), 0);
    reader.set_barrier(usize::MAX);
    assert_eq!(reader.get_byte_slice(3).unwrap(), &[3, 4, 5]);
}

#[test]
fn slice_reader_forward_to_barrier() {
    let data = [1u8, 2, 3, 4, 5];
    let mut reader = SliceReader::new(&data);
    reader.set_barrier(3);
    reader.forward_to_barrier().unwrap();
    assert_eq!(reader.barrier(), 0);
    reader.set_barrier(10);
    assert_eq!(reader.get_byte_slice(2).unwrap(), &[4, 5]);
    assert_eq!(reader.barrier(), 8);
}

#[test]
fn slice_segment_beyond_the_data_ends_at_the_data() {
    let data = [1u8, 2, 3];
    let mut reader = SliceReader::new(&data);
    reader.set_barrier(10);
    assert!(matches!(reader.get_byte_slice(11), Err(ErrorKind::SegmentEnded)));
    assert!(reader.is_finished());
    assert_eq!(reader.barrier(), 0);
    let mut reader = SliceReader::new(&data);
    reader.set_barrier(10);
    assert!(reader.forward_to_barrier().is_err());
    assert!(reader.is_finished());
}
