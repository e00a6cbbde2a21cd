//! Tests of the binary codec: round trips, exact wire bytes, truncation
//! safety, and the stream reader.

use edelweissd::utils::boxable::{Boxable, Boxed, ByteBox, ByteBoxReader, Dict, Unboxable};

fn round_trip<T: Boxable + Unboxable + PartialEq + std::fmt::Debug>(v: T) {
    let enc = v.boxed();
    assert_eq!(v.size_in_boxed_bytes(), enc.len());
    let dec = T::from_boxed(&enc);
    assert_eq!(dec, Some(v));
}

#[test]
fn primitive_round_trips() {
    round_trip(0u8);
    round_trip(0xabu8);
    round_trip(0xbeefu16);
    round_trip(0xdeadbeefu32);
    round_trip(0x0123456789abcdefu64);
    round_trip(usize::MAX);
    round_trip(0usize);
    round_trip(-1i8);
    round_trip(i8::MIN);
    round_trip(-2i16);
    round_trip(i32::MIN);
    round_trip(-5i64);
    round_trip(i64::MAX);
}

#[test]
fn primitive_wire_bytes_are_little_endian() {
    assert_eq!(0x12345678u32.boxed(), vec![0x78, 0x56, 0x34, 0x12]);
    assert_eq!(0x1234u16.boxed(), vec![0x34, 0x12]);
    assert_eq!(7u8.boxed(), vec![7]);
    assert_eq!(
        300usize.boxed(),
        vec![0x2c, 0x01, 0, 0, 0, 0, 0, 0],
        "usize travels as eight little-endian bytes"
    );
    assert_eq!((-1i32).boxed(), vec![0xff, 0xff, 0xff, 0xff]);
}

#[test]
fn primitive_decode_needs_enough_bytes() {
    assert_eq!(u32::from_boxed(&vec![1, 2, 3]), None);
    assert_eq!(u64::from_boxed(&vec![0; 7]), None);
    assert_eq!(u8::from_boxed(&vec![]), None);
    assert_eq!(usize::from_boxed(&vec![0; 7]), None);
}

#[test]
fn string_round_trip() {
    round_trip(String::new());
    round_trip(String::from("hello"));
    round_trip(String::from("héllo wörld ☃"));
}

#[test]
fn string_wire_bytes() {
    let enc = String::from("hi").boxed();
    assert_eq!(enc, vec![2, 0, 0, 0, b'h', b'i']);
}

#[test]
fn string_declared_length_beyond_buffer_is_rejected() {
    // Declared length 10, but only 2 payload bytes follow.
    let bad: Boxed = vec![10, 0, 0, 0, b'h', b'i'];
    assert_eq!(String::from_boxed(&bad), None);
}

#[test]
fn string_invalid_utf8_is_rejected() {
    // Declared length 2, payload is not valid UTF-8.
    let bad: Boxed = vec![2, 0, 0, 0, 0xff, 0xfe];
    assert_eq!(String::from_boxed(&bad), None);
}

#[test]
fn vec_round_trip() {
    round_trip(Vec::<u32>::new());
    round_trip(vec![1u32, 2, 3]);
    round_trip(vec![String::from("a"), String::from("bb"), String::new()]);
    round_trip(vec![vec![1u8, 2], vec![], vec![3u8]]);
}

#[test]
fn vec_wire_bytes() {
    let enc = vec![1u16, 2].boxed();
    assert_eq!(enc, vec![2, 0, 0, 0, 1, 0, 2, 0]);
}

#[test]
fn truncation_of_any_proper_prefix_fails() {
    // For several valid encodings, every proper prefix must decode to None.
    let u_enc = 0xdeadbeefu32.boxed();
    for cut in 0..u_enc.len() {
        let prefix: Boxed = u_enc[..cut].to_vec();
        assert_eq!(u32::from_boxed(&prefix), None);
    }
    let s_enc = String::from("héllo").boxed();
    for cut in 0..s_enc.len() {
        let prefix: Boxed = s_enc[..cut].to_vec();
        assert_eq!(String::from_boxed(&prefix), None);
    }
    let v_enc = vec![1u32, 2, 3].boxed();
    for cut in 0..v_enc.len() {
        let prefix: Boxed = v_enc[..cut].to_vec();
        assert_eq!(<Vec<u32>>::from_boxed(&prefix), None);
    }
    let vs_enc = vec![String::from("ab"), String::from("c")].boxed();
    for cut in 0..vs_enc.len() {
        let prefix: Boxed = vs_enc[..cut].to_vec();
        assert_eq!(<Vec<String>>::from_boxed(&prefix), None);
    }
}

#[test]
fn dict_round_trip_is_byte_identical() {
    let mut d: Dict<u64, Boxed> = Dict::new();
    d.insert(7, vec![1, 2, 3]);
    d.insert(1, vec![]);
    d.insert(7, vec![9]);
    assert_eq!(d.len(), 2, "inserting an existing key replaces its value");
    let enc = d.boxed();
    assert_eq!(d.size_in_boxed_bytes(), enc.len());
    let dec = <Dict<u64, Boxed>>::from_boxed(&enc).expect("a valid encoding decodes");
    assert_eq!(dec.get(7), Some(&vec![9u8]));
    assert_eq!(dec.get(1), Some(&vec![]));
    assert_eq!(dec.get(2), None);
    // Insertion order is preserved, so re-encoding reproduces the bytes.
    assert_eq!(dec.boxed(), enc);
}

#[test]
fn dict_truncation_fails() {
    let mut d: Dict<u64, Boxed> = Dict::new();
    d.insert(1, vec![5, 6]);
    d.insert(2, vec![]);
    let enc = d.boxed();
    for cut in 0..enc.len() {
        let prefix: Boxed = enc[..cut].to_vec();
        assert!(<Dict<u64, Boxed>>::from_boxed(&prefix).is_none());
    }
}

#[test]
fn pack_appends_encodings() {
    let mut buf: Boxed = Boxed::new();
    buf.pack(&1u16);
    buf.pack(&String::from("a"));
    assert_eq!(buf, vec![1, 0, 1, 0, 0, 0, b'a']);
}

#[test]
fn reader_reads_values_in_sequence() {
    let mut buf: Boxed = Boxed::new();
    buf.pack(&5u32);
    buf.pack(&String::from("ok"));
    buf.pack(&vec![1u8, 2]);
    let mut reader = ByteBoxReader::from_boxed(&buf);
    assert_eq!(reader.read::<u32>(), Some(5));
    assert_eq!(reader.read::<String>(), Some(String::from("ok")));
    assert_eq!(reader.read::<Vec<u8>>(), Some(vec![1, 2]));
    assert_eq!(reader.read::<u8>(), None, "the buffer is exhausted");
}

#[test]
fn reader_failed_read_leaves_cursor_unchanged() {
    let mut buf: Boxed = Boxed::new();
    buf.pack(&7u8);
    buf.pack(&8u8);
    let mut reader = ByteBoxReader::from_boxed(&buf);
    assert_eq!(reader.read::<u64>(), None, "two bytes are not enough for a u64");
    assert_eq!(reader.read::<u8>(), Some(7), "the failed read consumed nothing");
    assert_eq!(reader.read::<u8>(), Some(8));
}

#[test]
fn reader_can_be_built_by_conversion() {
    let mut buf: Boxed = Boxed::new();
    buf.pack(&3u8);
    let mut reader: ByteBoxReader = (&buf).into();
    assert_eq!(reader.read::<u8>(), Some(3));
}
