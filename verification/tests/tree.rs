use bmff::tree::{
    lookup, read_box_tree, read_boxes, read_next_box, read_payload, read_root_box, BmffBox,
    BoxKind,
};
use bmff::{BmffError, BoxHeader, ByteStream, FourCC, JpegBox, OpaqueBox, ReadBox, SttsBox};

fn boxed(tag: &[u8; 4], payload: &[u8]) -> Vec<u8> {
    let mut bytes = ((8 + payload.len()) as u32).to_be_bytes().to_vec();
    bytes.extend_from_slice(tag);
    bytes.extend_from_slice(payload);
    bytes
}

fn marker_payload() -> Vec<u8> {
    vec![0x00, 0x00, 0x01, 0x02]
}

fn timing_payload(pairs: &[(u32, u32)]) -> Vec<u8> {
    let mut bytes = vec![0, 0, 0, 0];
    bytes.extend_from_slice(&(pairs.len() as u32).to_be_bytes());
    for (sample_count, sample_delta) in pairs {
        bytes.extend_from_slice(&sample_count.to_be_bytes());
        bytes.extend_from_slice(&sample_delta.to_be_bytes());
    }
    bytes
}

fn tag(chars: [char; 4]) -> FourCC {
    FourCC::with(chars)
}

#[test]
fn registry_knows_its_tags() {
    assert_eq!(lookup(tag(['J', 'P', 'E', 'G'])), BoxKind::Marker);
    assert_eq!(lookup(tag(['s', 't', 't', 's'])), BoxKind::SampleTiming);
    for name in [['m', 'o', 'o', 'v'], ['t', 'r', 'a', 'k'], ['m', 'd', 'i', 'a'],
        ['m', 'i', 'n', 'f'], ['s', 't', 'b', 'l']]
    {
        assert_eq!(lookup(tag(name)), BoxKind::Container);
    }
}

#[test]
fn registry_falls_back_to_opaque() {
    assert_eq!(lookup(tag(['f', 'r', 'e', 'e'])), BoxKind::Opaque);
    assert_eq!(lookup(tag(['j', 'p', 'e', 'g'])), BoxKind::Opaque);
    assert_eq!(lookup(tag(['M', 'O', 'O', 'V'])), BoxKind::Opaque);
    assert_eq!(lookup(FourCC { value: [0, 0, 0, 0] }), BoxKind::Opaque);
    assert_eq!(lookup(FourCC { value: [0xff; 4] }), BoxKind::Opaque);
}

#[test]
fn empty_region_holds_no_boxes() {
    let mut stream = ByteStream::new(Vec::new());
    assert_eq!(read_box_tree(&mut stream), Ok(Vec::new()));
    let mut other = ByteStream::new(vec![1, 2, 3, 4]);
    other.seek(2);
    assert_eq!(read_boxes(&mut other, 2), Ok(Vec::new()));
    assert_eq!(other.position(), 2);
}

#[test]
fn unknown_tag_is_opaque_and_the_walk_goes_on() {
    let mut bytes = boxed(b"xyzw", &[0xde, 0xad, 0xbe, 0xef, 0x01]);
    bytes.extend(boxed(b"JPEG", &marker_payload()));
    let mut stream = ByteStream::new(bytes);
    let boxes = read_box_tree(&mut stream).unwrap();
    assert_eq!(boxes.len(), 2);
    let first = BoxHeader { start_offset: 0, declared_size: 13, type_tag: tag(['x', 'y', 'z', 'w']) };
    assert_eq!(boxes[0], BmffBox::Opaque(OpaqueBox { header: first }));
    let second = BoxHeader { start_offset: 13, declared_size: 12, type_tag: JpegBox::typ() };
    assert_eq!(boxes[1], BmffBox::Jpeg(JpegBox { header: second, version: 0, flags: 0x000102 }));
    assert_eq!(stream.position(), 25);
}

#[test]
fn opaque_payload_is_not_read() {
    let mut stream = ByteStream::new(vec![0xff; 4]);
    let header = BoxHeader { start_offset: 0, declared_size: 400, type_tag: tag(['m', 'd', 'a', 't']) };
    assert_eq!(OpaqueBox::read_box(&mut stream, header), Ok(OpaqueBox { header }));
    assert_eq!(stream.position(), 400);
    let bad = BoxHeader { start_offset: 9, declared_size: 1, type_tag: tag(['m', 'd', 'a', 't']) };
    assert_eq!(OpaqueBox::read_box(&mut stream, bad), Err(BmffError::MalformedHeader { offset: 9 }));
    assert_eq!(stream.position(), 400);
}

#[test]
fn siblings_are_found_one_behind_the_other() {
    let mut bytes = boxed(b"JPEG", &[1, 0, 0, 7, 0xee, 0xee, 0xee]);
    bytes.extend(boxed(b"stts", &timing_payload(&[(1, 2), (3, 4)])));
    bytes.extend(boxed(b"free", &[]));
    let mut stream = ByteStream::new(bytes);
    let boxes = read_box_tree(&mut stream).unwrap();
    assert_eq!(boxes.len(), 3);
    assert_eq!(boxes[0].header().start_offset, 0);
    assert_eq!(boxes[0].header().end_offset(), 15);
    assert_eq!(boxes[1].header().start_offset, 15);
    assert_eq!(boxes[1].header().end_offset(), 47);
    assert_eq!(boxes[2].header().start_offset, 47);
    assert_eq!(boxes[2].header().end_offset(), 55);
    match &boxes[0] {
        BmffBox::Jpeg(b) => assert_eq!((b.version, b.flags), (1, 7)),
        other => panic!("not a marker box: {:?}", other),
    }
    match &boxes[1] {
        BmffBox::Stts(b) => {
            assert_eq!(b.entries.len(), 2);
            assert_eq!((b.entries[1].sample_count, b.entries[1].sample_delta), (3, 4));
        }
        other => panic!("not a timing box: {:?}", other),
    }
    assert_eq!(stream.position(), 55);
}

#[test]
fn containers_are_descended_into() {
    let stts = boxed(b"stts", &timing_payload(&[(9, 90)]));
    let stbl = boxed(b"stbl", &stts);
    let minf = boxed(b"minf", &stbl);
    let mdia = boxed(b"mdia", &minf);
    let mut trak_payload = boxed(b"tkhd", &[0u8; 5]);
    trak_payload.extend(&mdia);
    let trak = boxed(b"trak", &trak_payload);
    let moov = boxed(b"moov", &trak);
    let mut stream = ByteStream::new(moov);
    let boxes = read_box_tree(&mut stream).unwrap();
    assert_eq!(boxes.len(), 1);
    let moov = match &boxes[0] {
        BmffBox::Container(c) => c,
        other => panic!("not a container: {:?}", other),
    };
    assert_eq!(moov.header.type_tag, tag(['m', 'o', 'o', 'v']));
    assert_eq!(moov.header.start_offset, 0);
    assert_eq!(moov.children.len(), 1);
    let trak = match &moov.children[0] {
        BmffBox::Container(c) => c,
        other => panic!("not a container: {:?}", other),
    };
    assert_eq!(trak.header.start_offset, 8);
    assert_eq!(trak.children.len(), 2);
    assert_eq!(trak.children[0].header().type_tag, tag(['t', 'k', 'h', 'd']));
    assert!(matches!(trak.children[0], BmffBox::Opaque(_)));
    let mut inner = &trak.children[1];
    for name in [['m', 'd', 'i', 'a'], ['m', 'i', 'n', 'f'], ['s', 't', 'b', 'l']] {
        let container = match inner {
            BmffBox::Container(c) => c,
            other => panic!("not a container: {:?}", other),
        };
        assert_eq!(container.header.type_tag, tag(name));
        assert_eq!(container.children.len(), 1);
        inner = &container.children[0];
    }
    match inner {
        BmffBox::Stts(b) => {
            assert_eq!(b.entries.len(), 1);
            assert_eq!((b.entries[0].sample_count, b.entries[0].sample_delta), (9, 90));
            assert_eq!(b.header.start_offset, 53);
            assert_eq!(b.header.end_offset(), 77);
        }
        other => panic!("not a timing box: {:?}", other),
    }
    assert_eq!(stream.position(), 77);
}

#[test]
fn empty_container_has_no_children() {
    let mut stream = ByteStream::new(boxed(b"moov", &[]));
    let boxes = read_box_tree(&mut stream).unwrap();
    match &boxes[0] {
        BmffBox::Container(c) => assert_eq!(c.children.len(), 0),
        other => panic!("not a container: {:?}", other),
    }
}

#[test]
fn size_zero_child_fills_its_container() {
    let mut payload = boxed(b"JPEG", &marker_payload());
    payload.extend([0, 0, 0, 0, b'm', b'd', b'a', b't', 1, 2, 3]);
    let mut bytes = boxed(b"moov", &payload);
    bytes.extend(boxed(b"free", &[]));
    let mut stream = ByteStream::new(bytes);
    let boxes = read_box_tree(&mut stream).unwrap();
    assert_eq!(boxes.len(), 2);
    let moov = match &boxes[0] {
        BmffBox::Container(c) => c,
        other => panic!("not a container: {:?}", other),
    };
    assert_eq!(moov.header.end_offset(), 31);
    assert_eq!(moov.children.len(), 2);
    assert_eq!(moov.children[1].header().start_offset, 20);
    assert_eq!(moov.children[1].header().declared_size, 11);
    assert_eq!(moov.children[1].header().end_offset(), 31);
    assert_eq!(boxes[1].header().start_offset, 31);
}

#[test]
fn size_zero_root_box_fills_the_stream() {
    let mut bytes = vec![0, 0, 0, 0, b'm', b'd', b'a', b't'];
    bytes.extend([7u8; 100]);
    let mut stream = ByteStream::new(bytes);
    let boxes = read_box_tree(&mut stream).unwrap();
    assert_eq!(boxes.len(), 1);
    assert_eq!(boxes[0].header().end_offset(), 108);
    assert_eq!(stream.position(), 108);
}

#[test]
fn large_size_box_in_a_walk() {
    let mut bytes = vec![0, 0, 0, 1, b'm', b'o', b'o', b'v'];
    bytes.extend(28u64.to_be_bytes());
    bytes.extend(boxed(b"JPEG", &marker_payload()));
    bytes.extend(boxed(b"free", &[]));
    let mut stream = ByteStream::new(bytes);
    let boxes = read_box_tree(&mut stream).unwrap();
    assert_eq!(boxes.len(), 2);
    let moov = match &boxes[0] {
        BmffBox::Container(c) => c,
        other => panic!("not a container: {:?}", other),
    };
    assert_eq!(moov.header.declared_size, 28);
    assert_eq!(moov.children.len(), 1);
    assert_eq!(moov.children[0].header().start_offset, 16);
    assert_eq!(boxes[1].header().start_offset, 28);
}

#[test]
fn child_that_ends_beyond_its_container_is_malformed() {
    let child = boxed(b"free", &[0u8; 4]);
    let mut bytes = vec![0, 0, 0, 16, b'm', b'o', b'o', b'v'];
    bytes.extend(&child);
    bytes.extend([0u8; 8]);
    let mut stream = ByteStream::new(bytes);
    assert_eq!(read_box_tree(&mut stream), Err(BmffError::MalformedHeader { offset: 8 }));
    assert_eq!(stream.position(), 0);
}

#[test]
fn region_with_a_stump_at_its_end_is_malformed() {
    let mut bytes = boxed(b"free", &[]);
    bytes.extend([0, 0, 0]);
    let mut stream = ByteStream::new(bytes);
    assert_eq!(read_box_tree(&mut stream), Err(BmffError::MalformedHeader { offset: 8 }));
    assert_eq!(stream.position(), 0);
}

#[test]
fn failure_in_a_later_box_returns_no_boxes() {
    let mut bytes = boxed(b"JPEG", &marker_payload());
    bytes.extend(boxed(b"stts", &[0, 0, 0, 0, 0, 0, 0, 5]));
    let mut stream = ByteStream::new(bytes);
    assert_eq!(
        read_box_tree(&mut stream),
        Err(BmffError::MalformedPayload { offset: 12, type_tag: SttsBox::typ() })
    );
    assert_eq!(stream.position(), 0);
}

#[test]
fn failure_deep_in_the_tree_reaches_the_caller() {
    let stts = boxed(b"stts", &[0, 0, 0, 0, 0, 0, 0, 1]);
    let stbl = boxed(b"stbl", &stts);
    let mut bytes = boxed(b"free", &[]);
    bytes.extend(boxed(b"moov", &stbl));
    let mut stream = ByteStream::new(bytes);
    assert_eq!(
        read_box_tree(&mut stream),
        Err(BmffError::MalformedPayload { offset: 24, type_tag: SttsBox::typ() })
    );
    assert_eq!(stream.position(), 0);
}

#[test]
fn marker_box_cut_short_at_the_end_of_the_stream_is_truncated() {
    let mut stream = ByteStream::new(vec![0, 0, 0, 12, b'J', b'P', b'E', b'G', 0, 0]);
    assert_eq!(read_next_box(&mut stream, 12), Err(BmffError::TruncatedStream { offset: 8 }));
    assert_eq!(stream.position(), 0);
}

#[test]
fn walk_from_behind_the_region_end_is_malformed() {
    let mut stream = ByteStream::new(boxed(b"free", &[0u8; 24]));
    stream.seek(16);
    assert_eq!(read_boxes(&mut stream, 8), Err(BmffError::MalformedHeader { offset: 16 }));
    assert_eq!(stream.position(), 16);
}

#[test]
fn next_box_stops_behind_one_box() {
    let mut bytes = boxed(b"JPEG", &[0, 0, 1, 2, 0xee, 0xee, 0xee, 0xee]);
    bytes.extend(boxed(b"free", &[]));
    let mut stream = ByteStream::new(bytes);
    let first = read_next_box(&mut stream, 24).unwrap();
    assert_eq!(first.header().type_tag, JpegBox::typ());
    assert_eq!(stream.position(), 16);
    let second = read_next_box(&mut stream, 24).unwrap();
    assert_eq!(second.header().start_offset, 16);
    assert_eq!(stream.position(), 24);
}

#[test]
fn scenario_marker_box_declared_longer_than_its_fields() {
    let bytes = vec![0x00, 0x00, 0x00, 0x10, b'J', b'P', b'E', b'G', 0x00, 0x00, 0x01, 0x02];
    let mut stream = ByteStream::new(bytes);
    let decoded = read_next_box(&mut stream, 16).unwrap();
    match decoded {
        BmffBox::Jpeg(b) => {
            assert_eq!(b.version, 0);
            assert_eq!(b.flags, 0x000102);
            assert_eq!(b.header.end_offset(), 16);
        }
        other => panic!("not a marker box: {:?}", other),
    }
    assert_eq!(stream.position(), 16);
}

#[test]
fn root_box_must_end_within_the_stream() {
    let bytes = vec![0x00, 0x00, 0x00, 0x10, b'J', b'P', b'E', b'G', 0x00, 0x00, 0x01, 0x02];
    let mut stream = ByteStream::new(bytes);
    assert_eq!(read_root_box(&mut stream), Err(BmffError::MalformedHeader { offset: 0 }));
    assert_eq!(stream.position(), 0);
}

#[test]
fn root_box_is_the_first_of_the_stream() {
    let mut bytes = boxed(b"moov", &boxed(b"JPEG", &marker_payload()));
    bytes.extend(boxed(b"free", &[]));
    let mut stream = ByteStream::new(bytes);
    let root = read_root_box(&mut stream).unwrap();
    assert_eq!(root.header().type_tag, tag(['m', 'o', 'o', 'v']));
    assert_eq!(stream.position(), 20);
}

#[test]
fn payload_is_decoded_by_the_tag_of_its_header() {
    let mut stream = ByteStream::new(vec![0x05, 0x00, 0x00, 0x09, 0, 0, 0, 0]);
    let as_marker = BoxHeader { start_offset: 0, declared_size: 8, type_tag: JpegBox::typ() };
    assert_eq!(
        read_payload(&mut stream, as_marker),
        Ok(BmffBox::Jpeg(JpegBox { header: as_marker, version: 5, flags: 9 }))
    );
    assert_eq!(stream.position(), 8);
    stream.seek(0);
    let as_timing = BoxHeader { start_offset: 0, declared_size: 8, type_tag: SttsBox::typ() };
    match read_payload(&mut stream, as_timing) {
        Ok(BmffBox::Stts(b)) => assert_eq!((b.version, b.flags, b.entries.len()), (5, 9, 0)),
        other => panic!("not a timing box: {:?}", other),
    }
    stream.seek(0);
    let as_other = BoxHeader { start_offset: 0, declared_size: 8, type_tag: tag(['u', 'u', 'i', 'd']) };
    assert_eq!(read_payload(&mut stream, as_other), Ok(BmffBox::Opaque(OpaqueBox { header: as_other })));
}

#[test]
fn container_under_a_malformed_header_is_refused() {
    let mut stream = ByteStream::new(vec![0u8; 16]);
    let bad = BoxHeader { start_offset: 2, declared_size: 4, type_tag: tag(['m', 'o', 'o', 'v']) };
    assert_eq!(read_payload(&mut stream, bad), Err(BmffError::MalformedHeader { offset: 2 }));
    assert_eq!(stream.position(), 0);
}
