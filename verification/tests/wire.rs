use protobuf::CodedInputStream;
use protobuf::CodedOutputStream;
use rics::wire::{
    next_frame, put_bytes, put_bytes_field, put_fixed32_field, put_frame, put_key, put_varint,
    put_varint_field, read_fields, take_field, take_varint, Field, FrameStep, Value,
};

fn varint_bytes(v: u64) -> Vec<u8> {
    let mut out = Vec::new();
    put_varint(&mut out, v);
    out
}

fn reference_varint(v: u64) -> Vec<u8> {
    let mut out = Vec::new();
    {
        let mut stream = CodedOutputStream::vec(&mut out);
        stream.write_raw_varint64(v).unwrap();
        stream.flush().unwrap();
    }
    out
}

#[test]
fn varints_of_known_values() {
    assert_eq!(varint_bytes(0), vec![0x00]);
    assert_eq!(varint_bytes(1), vec![0x01]);
    assert_eq!(varint_bytes(127), vec![0x7f]);
    assert_eq!(varint_bytes(128), vec![0x80, 0x01]);
    assert_eq!(varint_bytes(300), vec![0xac, 0x02]);
    assert_eq!(varint_bytes(16384), vec![0x80, 0x80, 0x01]);
    assert_eq!(
        varint_bytes(u64::MAX),
        vec![0xff, 0xff, 0xff, 0xff, 0xff, 0xff, 0xff, 0xff, 0xff, 0x01]
    );
}

#[test]
fn varints_are_those_of_the_protobuf_crate() {
    let mut v: u64 = 1;
    for _ in 0..64 {
        for w in [v - 1, v, v + 1].iter() {
            assert_eq!(varint_bytes(*w), reference_varint(*w));
        }
        v = v.wrapping_mul(2);
        if v == 0 {
            break;
        }
    }
    assert_eq!(varint_bytes(u64::MAX), reference_varint(u64::MAX));
}

#[test]
fn varints_are_appended() {
    let mut out = vec![9, 9];
    put_varint(&mut out, 300);
    put_bytes(&mut out, &[1, 2, 3]);
    assert_eq!(out, vec![9, 9, 0xac, 0x02, 1, 2, 3]);
}

#[test]
fn varints_are_read_back() {
    let mut v: u64 = 1;
    loop {
        for w in [v - 1, v, v + 1].iter() {
            let mut buf = vec![0xee];
            put_varint(&mut buf, *w);
            let end = buf.len();
            buf.push(0x55);
            assert_eq!(take_varint(&buf, 1), Some((*w, end)));
        }
        v = v.wrapping_mul(2);
        if v == 0 {
            break;
        }
    }
}

#[test]
fn a_varint_that_is_cut_short_is_not_read() {
    assert_eq!(take_varint(&[], 0), None);
    assert_eq!(take_varint(&[0x80], 0), None);
    assert_eq!(take_varint(&[0x01, 0x80, 0x80], 1), None);
    assert_eq!(take_varint(&[0x01], 1), None);
}

#[test]
fn a_varint_of_more_than_ten_bytes_is_not_read() {
    let long = [0x80, 0x80, 0x80, 0x80, 0x80, 0x80, 0x80, 0x80, 0x80, 0x80, 0x00];
    assert_eq!(take_varint(&long, 0), None);
}

#[test]
fn a_varint_beyond_64_bits_is_not_read() {
    let big = [0xff, 0xff, 0xff, 0xff, 0xff, 0xff, 0xff, 0xff, 0xff, 0x02];
    assert_eq!(take_varint(&big, 0), None);
    let top = [0xff, 0xff, 0xff, 0xff, 0xff, 0xff, 0xff, 0xff, 0xff, 0x01];
    assert_eq!(take_varint(&top, 0), Some((u64::MAX, 10)));
}

#[test]
fn a_varint_with_idle_bytes_is_read() {
    assert_eq!(take_varint(&[0x81, 0x80, 0x00], 0), Some((1, 3)));
}

#[test]
fn keys_pack_number_and_kind() {
    let mut out = Vec::new();
    put_key(&mut out, 1, 0);
    put_key(&mut out, 5, 2);
    put_key(&mut out, 6, 5);
    put_key(&mut out, 16, 0);
    assert_eq!(out, vec![0x08, 0x2a, 0x35, 0x80, 0x01]);
}

#[test]
fn fields_are_those_of_the_protobuf_crate() {
    let mut ours = Vec::new();
    put_varint_field(&mut ours, 2, 150);
    put_bytes_field(&mut ours, 5, &[7, 8, 9]);
    put_fixed32_field(&mut ours, 6, &0.5f32.to_bits().to_le_bytes());
    let mut theirs = Vec::new();
    {
        let mut stream = CodedOutputStream::vec(&mut theirs);
        stream.write_uint64(2, 150).unwrap();
        stream.write_bytes(5, &[7, 8, 9]).unwrap();
        stream.write_float(6, 0.5).unwrap();
        stream.flush().unwrap();
    }
    assert_eq!(ours, theirs);
}

#[test]
fn the_protobuf_crate_reads_our_fields() {
    let mut ours = Vec::new();
    put_varint_field(&mut ours, 3, 77);
    put_bytes_field(&mut ours, 4, b"abc");
    let mut stream = CodedInputStream::from_bytes(&ours);
    let (number, _) = stream.read_tag_unpack().unwrap();
    assert_eq!(number, 3);
    assert_eq!(stream.read_uint64().unwrap(), 77);
    let (number, _) = stream.read_tag_unpack().unwrap();
    assert_eq!(number, 4);
    assert_eq!(stream.read_bytes().unwrap(), b"abc".to_vec());
    assert!(stream.eof().unwrap());
}

#[test]
fn fields_are_read_one_by_one() {
    let mut buf = Vec::new();
    put_varint_field(&mut buf, 1, 5);
    let first = buf.len();
    put_bytes_field(&mut buf, 2, &[1, 2]);
    assert_eq!(
        take_field(&buf, 0),
        Some((Field { number: 1, value: Value::Varint(5) }, first))
    );
    assert_eq!(
        take_field(&buf, first),
        Some((Field { number: 2, value: Value::Bytes(vec![1, 2]) }, buf.len()))
    );
}

#[test]
fn a_run_of_fields_is_read_in_order() {
    let mut buf = Vec::new();
    put_bytes_field(&mut buf, 9, &[]);
    put_varint_field(&mut buf, 1, u64::MAX);
    put_fixed32_field(&mut buf, 3, &[1, 2, 3, 4]);
    buf.extend_from_slice(&[0x11, 1, 2, 3, 4, 5, 6, 7, 8]); // field 2, eight bytes
    assert_eq!(
        read_fields(&buf),
        Some(vec![
            Field { number: 9, value: Value::Bytes(vec![]) },
            Field { number: 1, value: Value::Varint(u64::MAX) },
            Field { number: 3, value: Value::Fixed32(vec![1, 2, 3, 4]) },
            Field { number: 2, value: Value::Fixed64(vec![1, 2, 3, 4, 5, 6, 7, 8]) },
        ])
    );
    assert_eq!(read_fields(&[]), Some(vec![]));
}

#[test]
fn fields_that_are_refused() {
    // The field number zero.
    assert_eq!(read_fields(&[0x00, 0x01]), None);
    // The kinds that start and end a group, and the two that do not exist.
    assert_eq!(read_fields(&[0x0b]), None);
    assert_eq!(read_fields(&[0x0c]), None);
    assert_eq!(read_fields(&[0x0e, 0x00]), None);
    assert_eq!(read_fields(&[0x0f, 0x00]), None);
    // A value that is cut short.
    assert_eq!(read_fields(&[0x08]), None);
    assert_eq!(read_fields(&[0x08, 0x80]), None);
    assert_eq!(read_fields(&[0x0a, 0x03, 1, 2]), None);
    assert_eq!(read_fields(&[0x0d, 1, 2, 3]), None);
    assert_eq!(read_fields(&[0x09, 1, 2, 3, 4, 5, 6, 7]), None);
    // A key beyond 32 bits.
    assert_eq!(read_fields(&[0x80, 0x80, 0x80, 0x80, 0x10, 0x00]), None);
    // A good field followed by a bad one.
    assert_eq!(read_fields(&[0x08, 0x01, 0x0b]), None);
}

#[test]
fn a_frame_is_its_length_and_its_message() {
    let mut out = Vec::new();
    put_frame(&mut out, &[1, 2, 3]);
    assert_eq!(out, vec![3, 1, 2, 3]);
    put_frame(&mut out, &[]);
    assert_eq!(out, vec![3, 1, 2, 3, 0]);
    let long = vec![7u8; 300];
    let mut framed = Vec::new();
    put_frame(&mut framed, &long);
    assert_eq!(&framed[..2], &[0xac, 0x02]);
    assert_eq!(&framed[2..], &long[..]);
}

#[test]
fn frames_are_found_one_after_the_other() {
    let mut stream = Vec::new();
    put_frame(&mut stream, &[1, 2, 3]);
    put_frame(&mut stream, &[]);
    put_frame(&mut stream, &[9]);
    let mut found = Vec::new();
    let mut rest: &[u8] = &stream;
    loop {
        match next_frame(rest) {
            FrameStep::Frame { start, end } => {
                found.push(rest[start..end].to_vec());
                rest = &rest[end..];
            }
            FrameStep::Incomplete => break,
            FrameStep::Bad => panic!("the stream is made of frames"),
        }
    }
    assert_eq!(found, vec![vec![1, 2, 3], vec![], vec![9]]);
    assert!(rest.is_empty());
}

#[test]
fn a_frame_that_is_not_all_there_is_incomplete() {
    assert_eq!(next_frame(&[]), FrameStep::Incomplete);
    assert_eq!(next_frame(&[0x80]), FrameStep::Incomplete);
    assert_eq!(next_frame(&[3, 1, 2]), FrameStep::Incomplete);
    assert_eq!(next_frame(&[0xac, 0x02, 0, 0]), FrameStep::Incomplete);
    assert_eq!(next_frame(&[3, 1, 2, 3]), FrameStep::Frame { start: 1, end: 4 });
    assert_eq!(next_frame(&[0, 5]), FrameStep::Frame { start: 1, end: 1 });
}

#[test]
fn a_length_that_is_no_varint_is_bad() {
    let long = [0x80, 0x80, 0x80, 0x80, 0x80, 0x80, 0x80, 0x80, 0x80, 0x80, 0x00];
    assert_eq!(next_frame(&long), FrameStep::Bad);
    assert_eq!(next_frame(&long[..10]), FrameStep::Bad);
    let big = [0xff, 0xff, 0xff, 0xff, 0xff, 0xff, 0xff, 0xff, 0xff, 0x02];
    assert_eq!(next_frame(&big), FrameStep::Bad);
    assert_eq!(next_frame(&long[..9]), FrameStep::Incomplete);
}
