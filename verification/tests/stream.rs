use bmff::{BmffError, ByteStream, FourCC};

#[test]
fn new_stream_starts_at_zero() {
    let stream = ByteStream::new(vec![1, 2, 3]);
    assert_eq!(stream.position(), 0);
    assert_eq!(stream.len(), 3);
}

#[test]
fn read_u8_takes_bytes_in_order() {
    let mut stream = ByteStream::new(vec![2, 5]);
    assert_eq!(stream.read_u8(), Ok(2));
    assert_eq!(stream.read_u8(), Ok(5));
    assert_eq!(stream.position(), 2);
}

#[test]
fn read_u8_at_end_is_truncated() {
    let mut stream = ByteStream::new(vec![2]);
    stream.seek(1);
    assert_eq!(stream.read_u8(), Err(BmffError::TruncatedStream { offset: 1 }));
    assert_eq!(stream.position(), 1);
}

#[test]
fn read_u24_is_big_endian() {
    let mut stream = ByteStream::new(vec![0x00, 0x01, 0x0b]);
    assert_eq!(stream.read_u24(), Ok(267));
    assert_eq!(stream.position(), 3);
}

#[test]
fn read_u24_reads_only_three_bytes() {
    let mut stream = ByteStream::new(vec![0x12, 0x34, 0x56, 0x78]);
    assert_eq!(stream.read_u24(), Ok(0x123456));
    assert_eq!(stream.read_u8(), Ok(0x78));
}

#[test]
fn read_u32_is_big_endian() {
    let mut stream = ByteStream::new(vec![0x00, 0x00, 0x01, 0x0b]);
    assert_eq!(stream.read_u32(), Ok(267));
    assert_eq!(stream.position(), 4);
}

#[test]
fn read_u32_most_significant_byte_first() {
    let mut stream = ByteStream::new(vec![0xff, 0xde, 0xad, 0xbe, 0xef]);
    stream.seek(1);
    assert_eq!(stream.read_u32(), Ok(0xdeadbeef));
    assert_eq!(stream.position(), 5);
}

#[test]
fn read_u64_is_big_endian() {
    let mut stream = ByteStream::new(vec![0x01, 0x02, 0x03, 0x04, 0x05, 0x06, 0x07, 0x08]);
    assert_eq!(stream.read_u64(), Ok(0x0102030405060708));
    assert_eq!(stream.position(), 8);
}

#[test]
fn read_u64_maximum() {
    let mut stream = ByteStream::new(vec![0xff; 8]);
    assert_eq!(stream.read_u64(), Ok(u64::MAX));
}

#[test]
fn short_reads_name_the_field_and_stay_put() {
    let mut stream = ByteStream::new(vec![1, 2, 3, 4, 5, 6, 7]);
    assert_eq!(stream.read_u64(), Err(BmffError::TruncatedStream { offset: 0 }));
    assert_eq!(stream.position(), 0);
    stream.seek(4);
    assert_eq!(stream.read_u32(), Err(BmffError::TruncatedStream { offset: 4 }));
    assert_eq!(stream.position(), 4);
    stream.seek(5);
    assert_eq!(stream.read_u24(), Err(BmffError::TruncatedStream { offset: 5 }));
    assert_eq!(stream.position(), 5);
    assert_eq!(stream.read_fourcc(), Err(BmffError::TruncatedStream { offset: 5 }));
    assert_eq!(stream.position(), 5);
}

#[test]
fn seek_beyond_the_end_is_allowed_and_reads_fail_there() {
    let mut stream = ByteStream::new(vec![1, 2, 3]);
    stream.seek(16);
    assert_eq!(stream.position(), 16);
    assert!(!stream.can_read(1));
    assert!(!stream.can_read(0));
    assert_eq!(stream.read_u8(), Err(BmffError::TruncatedStream { offset: 16 }));
    stream.seek(3);
    assert!(stream.can_read(0));
    stream.seek(u64::MAX);
    assert!(!stream.can_read(1));
    assert_eq!(stream.read_u32(), Err(BmffError::TruncatedStream { offset: u64::MAX }));
}

#[test]
fn can_read_counts_what_is_left() {
    let mut stream = ByteStream::new(vec![1, 2, 3, 4]);
    assert!(stream.can_read(4));
    assert!(!stream.can_read(5));
    stream.seek(3);
    assert!(stream.can_read(1));
    assert!(!stream.can_read(2));
    assert!(!stream.can_read(u64::MAX));
}

#[test]
fn read_fourcc_takes_four_raw_bytes() {
    let mut stream = ByteStream::new(vec![0, b's', b't', b't', b's']);
    stream.seek(1);
    assert_eq!(stream.read_fourcc(), Ok(FourCC::with(['s', 't', 't', 's'])));
    assert_eq!(stream.position(), 5);
}

#[test]
fn fourcc_equality_is_by_bytes() {
    let a = FourCC::with(['J', 'P', 'E', 'G']);
    let b = FourCC { value: [0x4a, 0x50, 0x45, 0x47] };
    let c = FourCC { value: [0x4a, 0x50, 0x45, 0x67] };
    assert_eq!(a, b);
    assert_ne!(a, c);
    assert_eq!(a.value, [b'J', b'P', b'E', b'G']);
}

#[test]
fn error_offset_names_the_place() {
    assert_eq!(BmffError::TruncatedStream { offset: 7 }.offset(), 7);
    assert_eq!(BmffError::MalformedHeader { offset: 8 }.offset(), 8);
    let tag = FourCC::with(['s', 't', 't', 's']);
    assert_eq!(BmffError::MalformedPayload { offset: 9, type_tag: tag }.offset(), 9);
}
