use wayland_lock::codec::{Argument, Error, Object};
use wayland_lock::event::{Event, EventMessage, ObjectKind, ObjectTable};
use wayland_lock::header::Header;

fn bootstrap_table() -> ObjectTable {
    let mut table = ObjectTable::new();
    table.register(1, ObjectKind::Display);
    table.register(2, ObjectKind::Registry);
    table.register(3, ObjectKind::Callback);
    table
}

fn global_frame(object: u32, name: u32, interface: &str, version: u32) -> Vec<u8> {
    let mut payload = name.encode().unwrap();
    payload = String::from(interface).encode_extend(payload).unwrap();
    payload = version.encode_extend(payload).unwrap();
    let header = Header::new(Object::new(object), 0, (8 + payload.len()) as u16);
    let mut frame = header.to_vec().unwrap();
    frame.extend(payload);
    frame
}

fn done_frame(object: u32, data: u32) -> Vec<u8> {
    let header = Header::new(Object::new(object), 0, 12);
    let mut frame = header.to_vec().unwrap();
    frame.extend(data.encode().unwrap());
    frame
}

#[test]
fn header_serializes_to_eight_bytes() {
    let h = Header::new(Object::new(2), 1, 48);
    let bytes = h.to_vec().unwrap();
    assert_eq!(bytes, vec![2, 0, 0, 0, 1, 0, 48, 0]);
}

#[test]
fn demux_reconstructs_global_event() {
    let table = bootstrap_table();
    let frame = global_frame(2, 9, "ext_session_lock_manager_v1", 1);
    let (msgs, rest) = EventMessage::parse_messages(&frame, &table).unwrap();
    assert_eq!(msgs.len(), 1);
    assert!(rest.is_empty());
    assert!(msgs[0].is_global());
    let (id, name, version) = msgs[0].payload.get_global().unwrap();
    assert_eq!(id, 9);
    assert_eq!(name, "ext_session_lock_manager_v1");
    assert_eq!(version, 1);
}

#[test]
fn demux_reconstructs_error_event() {
    let table = bootstrap_table();
    let mut payload = 2u32.encode().unwrap();
    payload = 7u32.encode_extend(payload).unwrap();
    payload = String::from("bad request").encode_extend(payload).unwrap();
    let header = Header::new(Object::new(1), 0, (8 + payload.len()) as u16);
    let mut frame = header.to_vec().unwrap();
    frame.extend(payload);
    let (msgs, rest) = EventMessage::parse_messages(&frame, &table).unwrap();
    assert_eq!(msgs.len(), 1);
    assert!(rest.is_empty());
    match &msgs[0].payload {
        Event::Error { object_id, code, message } => {
            assert_eq!(*object_id, 2);
            assert_eq!(*code, 7);
            assert_eq!(message, "bad request");
        },
        other => panic!("wrong event: {:?}", other),
    }
}

#[test]
fn demux_reconstructs_delete_id_and_done() {
    let table = bootstrap_table();
    let mut buffer = done_frame(3, 77);
    let header = Header::new(Object::new(1), 1, 12);
    let mut delete = header.to_vec().unwrap();
    delete.extend(5u32.encode().unwrap());
    buffer.extend(delete);
    let (msgs, rest) = EventMessage::parse_messages(&buffer, &table).unwrap();
    assert_eq!(msgs.len(), 2);
    assert!(rest.is_empty());
    assert!(msgs[0].is_callback_done());
    assert!(matches!(msgs[0].payload, Event::Callback { callback_data: 77 }));
    assert!(matches!(msgs[1].payload, Event::DeleteId { id: 5 }));
}

#[test]
fn demux_preserves_partial_trailing_frame() {
    let table = bootstrap_table();
    let mut buffer = done_frame(3, 1);
    let second = global_frame(2, 4, "wl_shm", 1);
    buffer.extend(&second[..10]);
    let (msgs, rest) = EventMessage::parse_messages(&buffer, &table).unwrap();
    assert_eq!(msgs.len(), 1);
    assert_eq!(rest, &second[..10]);
}

#[test]
fn demux_keeps_short_header_as_remainder() {
    let table = bootstrap_table();
    let buffer = [3u8, 0, 0, 0, 0, 0];
    let (msgs, rest) = EventMessage::parse_messages(&buffer, &table).unwrap();
    assert!(msgs.is_empty());
    assert_eq!(rest, buffer.to_vec());
}

#[test]
fn demux_unknown_object_is_consumed_as_other() {
    let table = bootstrap_table();
    let mut buffer = done_frame(99, 1);
    buffer.extend(done_frame(3, 2));
    let (msgs, rest) = EventMessage::parse_messages(&buffer, &table).unwrap();
    assert_eq!(msgs.len(), 2);
    assert!(rest.is_empty());
    assert!(matches!(msgs[0].payload, Event::Other));
    assert!(matches!(msgs[1].payload, Event::Callback { callback_data: 2 }));
}

#[test]
fn demux_unknown_opcode_is_consumed_as_other() {
    let table = bootstrap_table();
    let header = Header::new(Object::new(1), 7, 8);
    let frame = header.to_vec().unwrap();
    let (msgs, rest) = EventMessage::parse_messages(&frame, &table).unwrap();
    assert_eq!(msgs.len(), 1);
    assert!(rest.is_empty());
    assert!(matches!(msgs[0].payload, Event::Other));
}

#[test]
fn demux_rejects_undersized_frame() {
    let table = bootstrap_table();
    // declared size 4 can never cover its own header
    let buffer = [1u8, 0, 0, 0, 0, 0, 4, 0];
    let r = EventMessage::parse_messages(&buffer, &table);
    assert!(matches!(r, Err(Error::ParseError)));
}

#[test]
fn demux_rejects_unaligned_frame() {
    let table = bootstrap_table();
    let buffer = [1u8, 0, 0, 0, 0, 0, 10, 0, 0, 0];
    let r = EventMessage::parse_messages(&buffer, &table);
    assert!(matches!(r, Err(Error::ParseError)));
}

#[test]
fn demux_truncated_recognized_frame_is_hard_error() {
    let table = bootstrap_table();
    // a complete 12-byte frame on the registry whose payload is too short for
    // the global event's arguments
    let header = Header::new(Object::new(2), 0, 12);
    let mut frame = header.to_vec().unwrap();
    frame.extend(9u32.encode().unwrap());
    let r = EventMessage::parse_messages(&frame, &table);
    assert!(matches!(r, Err(Error::UnexpectedEndOfBuffer)));
}

#[test]
fn demux_invalid_utf8_in_global_is_hard_error() {
    let table = bootstrap_table();
    let mut payload = 9u32.encode().unwrap();
    payload.extend(vec![5, 0, 0, 0, 0xFF, 0xFE, 0xFD, 0]);
    payload = 1u32.encode_extend(payload).unwrap();
    let header = Header::new(Object::new(2), 0, (8 + payload.len()) as u16);
    let mut frame = header.to_vec().unwrap();
    frame.extend(payload);
    let r = EventMessage::parse_messages(&frame, &table);
    assert!(matches!(r, Err(Error::Utf8)));
}

#[test]
fn object_table_latest_registration_wins() {
    let mut table = ObjectTable::new();
    table.register(5, ObjectKind::Display);
    table.register(5, ObjectKind::Callback);
    assert_eq!(table.lookup(5), Some(ObjectKind::Callback));
    assert_eq!(table.lookup(6), None);
}
