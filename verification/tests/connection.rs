use wayland_lock::codec::{Argument, Error, Object};
use wayland_lock::connection::{InterfaceMap, Wayland};
use wayland_lock::display::WlDisplay;
use wayland_lock::header::Header;
use wayland_lock::registry::WlRegistry;
use wayland_lock::request::Message;
use wayland_lock::session_lock::{SessionLock, SessionLockManager};
use wayland_lock::surface::WlSurface;

fn global_frame(object: u32, name: u32, interface: &str, version: u32) -> Vec<u8> {
    let mut payload = name.encode().unwrap();
    payload = String::from(interface).encode_extend(payload).unwrap();
    payload = version.encode_extend(payload).unwrap();
    let header = Header::new(Object::new(object), 0, (8 + payload.len()) as u16);
    let mut frame = header.to_vec().unwrap();
    frame.extend(payload);
    frame
}

fn done_frame(object: u32, data: u32) -> Vec<u8> {
    let header = Header::new(Object::new(object), 0, 12);
    let mut frame = header.to_vec().unwrap();
    frame.extend(data.encode().unwrap());
    frame
}

#[test]
fn sync_request_bytes() {
    let display = WlDisplay::new(Object::new(1));
    let msg = display.sync(3);
    let bytes = msg.to_vec().unwrap();
    assert_eq!(bytes, vec![1, 0, 0, 0, 0, 0, 12, 0, 3, 0, 0, 0]);
}

#[test]
fn get_registry_request_bytes() {
    let display = WlDisplay::new(Object::new(1));
    let msg = display.get_registry(2);
    let bytes = msg.to_vec().unwrap();
    assert_eq!(bytes, vec![1, 0, 0, 0, 1, 0, 12, 0, 2, 0, 0, 0]);
}

#[test]
fn bind_request_size_is_computed_from_payload() {
    let registry = WlRegistry::new(Object::new(2));
    let nid = wayland_lock::codec::NewId::new(
        (String::from("ext_session_lock_manager_v1"), 1),
        Object::new(4),
    );
    let msg = registry.bind(9, nid);
    let bytes = msg.to_vec().unwrap();
    // header + name + (length field + 27 bytes + NUL, already aligned) + version + id
    assert_eq!(bytes.len(), 8 + 4 + 4 + 28 + 4 + 4);
    // the declared size matches the actual byte count
    assert_eq!(bytes[6] as usize + ((bytes[7] as usize) << 8), bytes.len());
}

#[test]
fn empty_requests_have_size_eight() {
    let manager = SessionLockManager::new(Object::new(4));
    assert_eq!(manager.destroy().to_vec().unwrap(), vec![4, 0, 0, 0, 0, 0, 8, 0]);
    let lock = SessionLock::new(Object::new(5));
    assert_eq!(lock.destroy().to_vec().unwrap(), vec![5, 0, 0, 0, 0, 0, 8, 0]);
    assert_eq!(lock.unlock_and_destroy().to_vec().unwrap(), vec![5, 0, 0, 0, 2, 0, 8, 0]);
    let surface = WlSurface::new(Object::new(6));
    assert_eq!(surface.destroy().to_vec().unwrap(), vec![6, 0, 0, 0, 0, 0, 8, 0]);
}

#[test]
fn lock_request_bytes() {
    let manager = SessionLockManager::new(Object::new(4));
    let msg = manager.lock(5);
    assert_eq!(msg.to_vec().unwrap(), vec![4, 0, 0, 0, 1, 0, 12, 0, 5, 0, 0, 0]);
}

#[test]
fn empty_message_payload_is_empty() {
    let bytes = Message::Empty.to_vec().unwrap();
    assert!(bytes.is_empty());
}

#[test]
fn interface_map_strictly_updates() {
    let mut map = InterfaceMap::new();
    map.insert(5, String::from("wl_compositor"), 3);
    map.insert(5, String::from("wl_compositor"), 4);
    let (iface, version) = map.get(5).unwrap();
    assert_eq!(iface, "wl_compositor");
    assert_eq!(version, 4);
    assert!(map.get(6).is_none());
}

#[test]
fn interface_map_find_prefers_most_recent() {
    let mut map = InterfaceMap::new();
    map.insert(5, String::from("wl_output"), 2);
    map.insert(8, String::from("wl_output"), 3);
    let idx = map.find(&String::from("wl_output")).unwrap();
    assert_eq!(map.entries[idx].name, 8);
    assert!(map.find(&String::from("wl_seat")).is_none());
}

#[test]
fn setup_emits_get_registry_then_sync() {
    let mut conn = Wayland::new();
    let bytes = conn.setup();
    let expected = [
        vec![1, 0, 0, 0, 1, 0, 12, 0, 2, 0, 0, 0],
        vec![1, 0, 0, 0, 0, 0, 12, 0, 3, 0, 0, 0],
    ]
    .concat();
    assert_eq!(bytes, expected);
    assert_eq!(conn.registry.unwrap().0.inner(), 2);
    assert_eq!(conn.next_id, 4);
    assert!(!conn.is_setup);
}

#[test]
fn global_announcement_updates_registry_and_bind_succeeds() {
    let mut conn = Wayland::new();
    let _ = conn.setup();
    let buffer = global_frame(2, 5, "wl_compositor", 4);
    let msgs = conn.read_messages(&buffer).unwrap();
    assert_eq!(msgs.len(), 1);
    let (iface, version) = conn.interface_map.get(5).unwrap();
    assert_eq!(iface, "wl_compositor");
    assert_eq!(version, 4);
    assert!(conn.bind(String::from("wl_compositor")).is_ok());
    // a bound global that is not the session-lock manager leaves the manager
    // handle unset
    assert!(conn.session_lock_manager.is_none());
}

#[test]
fn sync_ordering_records_all_globals_before_done() {
    let mut conn = Wayland::new();
    let _ = conn.setup();
    let mut buffer = Vec::new();
    buffer.extend(global_frame(2, 1, "wl_compositor", 4));
    buffer.extend(global_frame(2, 2, "wl_shm", 1));
    buffer.extend(global_frame(2, 3, "wl_seat", 7));
    buffer.extend(done_frame(3, 0));
    let msgs = conn.read_messages(&buffer).unwrap();
    assert_eq!(msgs.len(), 4);
    assert!(conn.is_setup);
    assert!(conn.interface_map.get(1).is_some());
    assert!(conn.interface_map.get(2).is_some());
    assert!(conn.interface_map.get(3).is_some());
}

#[test]
fn bind_unknown_interface_is_typed_error_and_consumes_nothing() {
    let mut conn = Wayland::new();
    let _ = conn.setup();
    let before = conn.next_id;
    let r = conn.bind(String::from("ext_session_lock_manager_v1"));
    assert!(matches!(r, Err(Error::UnsupportedInterface)));
    assert_eq!(conn.next_id, before);
    assert!(conn.session_lock_manager.is_none());
}

#[test]
fn bind_before_get_registry_is_typed_error() {
    let mut conn = Wayland::new();
    conn.interface_map.insert(9, String::from("wl_shm"), 1);
    let r = conn.bind(String::from("wl_shm"));
    assert!(matches!(r, Err(Error::NotBound)));
}

#[test]
fn bind_rejects_interface_name_too_long_for_a_frame() {
    let mut conn = Wayland::new();
    let _ = conn.setup();
    // a name this long cannot fit the header's 16-bit size field
    let huge = "x".repeat(70_000);
    conn.interface_map.insert(11, huge.clone(), 1);
    let before = conn.next_id;
    let r = conn.bind(huge);
    assert!(matches!(r, Err(Error::InvalidArgument)));
    assert_eq!(conn.next_id, before);
    assert!(conn.session_lock_manager.is_none());
}

#[test]
fn lock_without_manager_is_typed_error() {
    let mut conn = Wayland::new();
    assert!(matches!(conn.lock(), Err(Error::NotBound)));
    assert!(matches!(conn.unlock(), Err(Error::NotBound)));
}

#[test]
fn partial_frame_is_reassembled_across_reads() {
    let mut conn = Wayland::new();
    let _ = conn.setup();
    let mut buffer = global_frame(2, 9, "ext_session_lock_manager_v1", 1);
    buffer.extend(done_frame(3, 0));
    let split = buffer.len() - 7;
    let msgs = conn.read_messages(&buffer[..split]).unwrap();
    assert_eq!(msgs.len(), 1);
    assert!(!conn.is_setup);
    let msgs = conn.read_messages(&buffer[split..]).unwrap();
    assert_eq!(msgs.len(), 1);
    assert!(conn.is_setup);
    assert!(conn.pending.is_empty());
}

#[test]
fn end_to_end_handshake_and_session_lock() {
    let mut conn = Wayland::new();
    let _ = conn.setup();
    assert_eq!(conn.registry.unwrap().0.inner(), 2);

    let mut buffer = global_frame(2, 9, "ext_session_lock_manager_v1", 1);
    buffer.extend(done_frame(3, 0));
    let msgs = conn.read_messages(&buffer).unwrap();
    assert_eq!(msgs.len(), 2);
    assert!(conn.is_setup);
    let (iface, version) = conn.interface_map.get(9).unwrap();
    assert_eq!(iface, "ext_session_lock_manager_v1");
    assert_eq!(version, 1);

    let bind_bytes = conn.bind(String::from("ext_session_lock_manager_v1")).unwrap();
    assert_eq!(conn.session_lock_manager.unwrap().0.inner(), 4);
    // header + name + version + id fixed parts, plus the interface string
    // rounded with its terminator to the word grid
    assert_eq!(bind_bytes.len(), 24 + 28);
    assert_eq!(&bind_bytes[..8], &[2, 0, 0, 0, 0, 0, 52, 0]);
    assert_eq!(&bind_bytes[8..12], &[9, 0, 0, 0]);

    let lock_bytes = conn.lock().unwrap();
    assert_eq!(conn.session_lock.unwrap().0.inner(), 5);
    assert_eq!(lock_bytes, vec![4, 0, 0, 0, 1, 0, 12, 0, 5, 0, 0, 0]);

    let unlock_bytes = conn.unlock().unwrap();
    assert_eq!(unlock_bytes, vec![5, 0, 0, 0, 2, 0, 8, 0]);
    assert_eq!(conn.next_id, 6);
}

#[test]
fn parse_error_leaves_state_unchanged() {
    let mut conn = Wayland::new();
    let _ = conn.setup();
    let buffer = [2u8, 0, 0, 0, 0, 0, 4, 0];
    let r = conn.read_messages(&buffer);
    assert!(matches!(r, Err(Error::ParseError)));
    assert!(conn.pending.is_empty());
    assert!(!conn.is_setup);
}
