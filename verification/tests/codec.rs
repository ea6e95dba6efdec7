use wayland_lock::codec::{Argument, Error, NewId, Object};

#[test]
fn u32_encode_is_little_endian() {
    let v: u32 = 0xDEAD_BEEF;
    let bytes = v.encode().unwrap();
    assert_eq!(bytes, vec![0xEF, 0xBE, 0xAD, 0xDE]);
}

#[test]
fn u32_round_trip() {
    let v: u32 = 0xDEAD_BEEF;
    let bytes = v.encode().unwrap();
    let (back, end) = <u32 as Argument>::decode(&bytes, 0).unwrap();
    assert_eq!(back, v);
    assert_eq!(end, 4);
}

#[test]
fn u16_encode_is_little_endian() {
    let v: u16 = 0x1234;
    let bytes = v.encode().unwrap();
    assert_eq!(bytes, vec![0x34, 0x12]);
}

#[test]
fn u16_round_trip() {
    let v: u16 = 0xBEEF;
    let bytes = v.encode().unwrap();
    let (back, end) = <u16 as Argument>::decode(&bytes, 0).unwrap();
    assert_eq!(back, v);
    assert_eq!(end, 2);
}

#[test]
fn u32_decode_short_buffer_is_end_of_buffer() {
    let bytes = [1u8, 2, 3];
    let r = <u32 as Argument>::decode(&bytes, 0);
    assert!(matches!(r, Err(Error::UnexpectedEndOfBuffer)));
}

#[test]
fn string_encode_exact_bytes() {
    let s = String::from("hi");
    let bytes = s.encode().unwrap();
    // length field = 3 (two bytes + NUL), then "hi", NUL, one padding byte
    assert_eq!(bytes, vec![3, 0, 0, 0, b'h', b'i', 0, 0]);
}

#[test]
fn string_encode_always_word_aligned() {
    for s in ["", "a", "ab", "abc", "abcd", "ext_session_lock_manager_v1"] {
        let bytes = String::from(s).encode().unwrap();
        assert_eq!(bytes.len() % 4, 0, "misaligned encoding for {:?}", s);
    }
}

#[test]
fn string_round_trip() {
    let s = String::from("ext_session_lock_manager_v1");
    let bytes = s.encode().unwrap();
    let (back, end) = <String as Argument>::decode(&bytes, 0).unwrap();
    assert_eq!(back, s);
    assert_eq!(end, bytes.len());
}

#[test]
fn string_round_trip_non_ascii() {
    // multi-byte UTF-8 goes through the byte codec and back intact
    let s = String::from("verrou de s\u{00e9}ance");
    let bytes = s.encode().unwrap();
    let (back, end) = <String as Argument>::decode(&bytes, 0).unwrap();
    assert_eq!(back, s);
    assert_eq!(end, bytes.len());
}

#[test]
fn string_decode_recomputes_length_from_terminator() {
    // the advertised length field (255) is wrong; the NUL decides
    let bytes = [255u8, 0, 0, 0, b'a', b'b', b'c', 0];
    let (back, end) = <String as Argument>::decode(&bytes, 0).unwrap();
    assert_eq!(back, "abc");
    assert_eq!(end, 8);
}

#[test]
fn string_decode_invalid_utf8_is_typed_error() {
    // 0xFF is never valid UTF-8
    let bytes = [4u8, 0, 0, 0, 0xFF, 0xFE, 0xFD, 0];
    let r = <String as Argument>::decode(&bytes, 0);
    assert!(matches!(r, Err(Error::Utf8)));
}

#[test]
fn object_round_trip() {
    let o = Object::new(42);
    assert_eq!(o.inner(), 42);
    assert_eq!(o.len(), 4);
    let bytes = o.encode().unwrap();
    assert_eq!(bytes, vec![42, 0, 0, 0]);
    let (back, end) = <Object as Argument>::decode(&bytes, 0).unwrap();
    assert_eq!(back.inner(), 42);
    assert_eq!(end, 4);
}

#[test]
fn new_id_len_is_the_encoded_length() {
    let nid = NewId::new((String::from("wl_compositor"), 4), Object::new(7));
    // length field + 13 bytes + terminator padded to 16, + version + id
    assert_eq!(nid.len(), 28);
    assert_eq!(nid.len(), nid.encode().unwrap().len());
}

#[test]
fn new_id_len_of_aligned_string() {
    // 27 bytes + terminator need no padding
    let nid = NewId::new((String::from("ext_session_lock_manager_v1"), 1), Object::new(4));
    assert_eq!(nid.len(), 40);
    assert_eq!(nid.len(), nid.encode().unwrap().len());
}

#[test]
fn new_id_round_trip() {
    let nid = NewId::new((String::from("wl_compositor"), 4), Object::new(7));
    let bytes = nid.encode().unwrap();
    assert_eq!(bytes.len() % 4, 0);
    let (back, end) = <NewId as Argument>::decode(&bytes, 0).unwrap();
    assert_eq!(back.0, "wl_compositor");
    assert_eq!(back.1, 4);
    assert_eq!(back.2.inner(), 7);
    assert_eq!(end, bytes.len());
}

#[test]
fn encode_extend_appends() {
    let mut buffer: Vec<u8> = vec![9, 9];
    buffer = 1u32.encode_extend(buffer).unwrap();
    assert_eq!(buffer, vec![9, 9, 1, 0, 0, 0]);
}
