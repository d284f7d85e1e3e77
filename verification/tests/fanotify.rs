use krom::fanotify::{
    byte_order_of_probe, encode_response, events_well_formed, native_byte_order, parse_events,
    ByteOrder, EventFlags,
    FanotifyEventMetadata, Response,
    FANOTIFY_METADATA_VERSION, FAN_ACCESS, FAN_ACCESS_PERM, FAN_ALLOW, FAN_AUDIT, FAN_CLOSE,
    FAN_CLOSE_NOWRITE, FAN_CLOSE_WRITE, FAN_DENY, FAN_EVENT_ON_CHILD, FAN_MODIFY, FAN_NOFD,
    FAN_ONDIR, FAN_OPEN, FAN_OPEN_PERM, METADATA_SIZE, RESPONSE_SIZE,
};

fn record_be(event_len: u32, vers: u8, metadata_len: u16, mask: u64, fd: i32, pid: i32) -> Vec<u8> {
    let mut v = Vec::new();
    v.extend_from_slice(&event_len.to_be_bytes());
    v.push(vers);
    v.push(0);
    v.extend_from_slice(&metadata_len.to_be_bytes());
    v.extend_from_slice(&mask.to_be_bytes());
    v.extend_from_slice(&fd.to_be_bytes());
    v.extend_from_slice(&pid.to_be_bytes());
    v
}

fn record_ne(event_len: u32, vers: u8, metadata_len: u16, mask: u64, fd: i32, pid: i32) -> Vec<u8> {
    let mut v = Vec::new();
    v.extend_from_slice(&event_len.to_ne_bytes());
    v.push(vers);
    v.push(0);
    v.extend_from_slice(&metadata_len.to_ne_bytes());
    v.extend_from_slice(&mask.to_ne_bytes());
    v.extend_from_slice(&fd.to_ne_bytes());
    v.extend_from_slice(&pid.to_ne_bytes());
    v
}

fn record(event_len: u32, vers: u8, metadata_len: u16, mask: u64, fd: i32, pid: i32) -> Vec<u8> {
    let mut v = Vec::new();
    v.extend_from_slice(&event_len.to_le_bytes());
    v.push(vers);
    v.push(0);
    v.extend_from_slice(&metadata_len.to_le_bytes());
    v.extend_from_slice(&mask.to_le_bytes());
    v.extend_from_slice(&fd.to_le_bytes());
    v.extend_from_slice(&pid.to_le_bytes());
    v
}

#[test]
fn event_masks_match_libc() {
    assert_eq!(FAN_ACCESS, libc::FAN_ACCESS);
    assert_eq!(FAN_MODIFY, libc::FAN_MODIFY);
    assert_eq!(FAN_CLOSE_WRITE, libc::FAN_CLOSE_WRITE);
    assert_eq!(FAN_CLOSE_NOWRITE, libc::FAN_CLOSE_NOWRITE);
    assert_eq!(FAN_OPEN, libc::FAN_OPEN);
    assert_eq!(FAN_OPEN_PERM, libc::FAN_OPEN_PERM);
    assert_eq!(FAN_ACCESS_PERM, libc::FAN_ACCESS_PERM);
    assert_eq!(FAN_ONDIR, libc::FAN_ONDIR);
    assert_eq!(FAN_EVENT_ON_CHILD, libc::FAN_EVENT_ON_CHILD);
    assert_eq!(FAN_CLOSE, libc::FAN_CLOSE);
    assert_eq!(FAN_ALLOW, libc::FAN_ALLOW);
    assert_eq!(FAN_DENY, libc::FAN_DENY);
    assert_eq!(FANOTIFY_METADATA_VERSION, libc::FANOTIFY_METADATA_VERSION);
    assert_eq!(METADATA_SIZE, std::mem::size_of::<libc::fanotify_event_metadata>());
    assert_eq!(RESPONSE_SIZE, std::mem::size_of::<libc::fanotify_response>());
}

#[test]
fn event_flags_contains_and_union() {
    let m = EventFlags::from_bits_retain(FAN_CLOSE_WRITE | FAN_OPEN_PERM);
    assert!(m.contains(EventFlags::from_bits_retain(FAN_CLOSE_WRITE)));
    assert!(m.contains(EventFlags::from_bits_retain(FAN_OPEN_PERM)));
    assert!(!m.contains(EventFlags::from_bits_retain(FAN_MODIFY)));
    assert!(m.contains(EventFlags::from_bits_retain(0)));
    let u = EventFlags::from_bits_retain(FAN_MODIFY).union(m);
    assert_eq!(u.bits(), FAN_MODIFY | FAN_CLOSE_WRITE | FAN_OPEN_PERM);
}

#[test]
fn parse_two_events() {
    let mut buf = record(24, 3, 24, FAN_CLOSE_WRITE, 7, 1234);
    buf.extend(record(24, 3, 24, FAN_OPEN_PERM | FAN_ONDIR, -1, -5));
    assert!(events_well_formed(&buf, ByteOrder::Little));
    let events = parse_events(&buf, ByteOrder::Little);
    assert_eq!(events.len(), 2);
    assert_eq!(events[0], FanotifyEventMetadata {
        event_len: 24,
        vers: 3,
        metadata_len: 24,
        mask: EventFlags::from_bits_retain(FAN_CLOSE_WRITE),
        fd: 7,
        pid: 1234,
    });
    assert_eq!(events[1].mask.bits(), FAN_OPEN_PERM | FAN_ONDIR);
    assert_eq!(events[1].fd, FAN_NOFD);
    assert_eq!(events[1].pid, -5);
}

#[test]
fn parse_skips_by_event_len_and_ignores_short_tail() {
    let mut buf = record(32, 3, 24, FAN_MODIFY, 3, 10);
    buf.extend_from_slice(&[0xaa; 8]);
    buf.extend(record(24, 3, 24, FAN_ACCESS, 4, 11));
    buf.extend_from_slice(&[0; 10]);
    assert!(events_well_formed(&buf, ByteOrder::Little));
    let events = parse_events(&buf, ByteOrder::Little);
    assert_eq!(events.len(), 2);
    assert_eq!(events[0].event_len, 32);
    assert_eq!(events[1].fd, 4);
}

#[test]
fn parse_empty_and_short_buffers() {
    assert!(events_well_formed(&[], ByteOrder::Little));
    assert!(parse_events(&[], ByteOrder::Little).is_empty());
    assert!(events_well_formed(&[1, 2, 3], ByteOrder::Big));
    assert!(parse_events(&[1, 2, 3], ByteOrder::Big).is_empty());
}

#[test]
fn malformed_records_are_refused() {
    assert!(!events_well_formed(&record(0, 3, 24, FAN_MODIFY, 3, 1), ByteOrder::Little));
    assert!(!events_well_formed(&record(25, 3, 24, FAN_MODIFY, 3, 1), ByteOrder::Little));
    let mut buf = record(24, 3, 24, FAN_MODIFY, 3, 1);
    buf.extend(record(100, 3, 24, FAN_MODIFY, 3, 1));
    assert!(!events_well_formed(&buf, ByteOrder::Little));
}

#[test]
fn response_bytes() {
    assert_eq!(encode_response(5, Response::allow(), ByteOrder::Little), vec![5, 0, 0, 0, 1, 0, 0, 0]);
    assert_eq!(encode_response(-1, Response::deny(), ByteOrder::Little), vec![0xff, 0xff, 0xff, 0xff, 2, 0, 0, 0]);
    assert_eq!(
        encode_response(0x0102_0304, Response::from_bits_retain(FAN_DENY | FAN_AUDIT), ByteOrder::Little),
        vec![4, 3, 2, 1, 0x12, 0, 0, 0]
    );
    assert_eq!(encode_response(i32::MIN, Response::allow(), ByteOrder::Little)[..4], [0, 0, 0, 0x80]);
}

#[test]
fn parse_big_endian_records() {
    let mut buf = record_be(24, 3, 24, FAN_CLOSE_WRITE, 7, 1234);
    buf.extend(record_be(24, 3, 24, FAN_OPEN_PERM | FAN_ONDIR, -1, -5));
    assert!(events_well_formed(&buf, ByteOrder::Big));
    let events = parse_events(&buf, ByteOrder::Big);
    assert_eq!(events.len(), 2);
    assert_eq!(events[0], FanotifyEventMetadata {
        event_len: 24,
        vers: 3,
        metadata_len: 24,
        mask: EventFlags::from_bits_retain(FAN_CLOSE_WRITE),
        fd: 7,
        pid: 1234,
    });
    assert_eq!(events[1].mask.bits(), FAN_OPEN_PERM | FAN_ONDIR);
    assert_eq!(events[1].fd, FAN_NOFD);
    assert_eq!(events[1].pid, -5);
    // Read the other way round, the first length is 24 << 24: too long.
    assert!(!events_well_formed(&buf, ByteOrder::Little));
}

#[test]
fn big_endian_response_bytes() {
    assert_eq!(encode_response(5, Response::allow(), ByteOrder::Big), vec![0, 0, 0, 5, 0, 0, 0, 1]);
    assert_eq!(encode_response(-1, Response::deny(), ByteOrder::Big), vec![0xff, 0xff, 0xff, 0xff, 0, 0, 0, 2]);
    assert_eq!(
        encode_response(0x0102_0304, Response::from_bits_retain(FAN_DENY | FAN_AUDIT), ByteOrder::Big),
        vec![1, 2, 3, 4, 0, 0, 0, 0x12]
    );
}

#[test]
fn native_order_matches_the_machine() {
    let order = native_byte_order();
    if u16::from_ne_bytes([1, 0]) == 1 {
        assert_eq!(order, ByteOrder::Little);
    } else {
        assert_eq!(order, ByteOrder::Big);
    }
    let buf = record_ne(24, 3, 24, FAN_MODIFY | FAN_CLOSE_NOWRITE, 42, 4242);
    assert!(events_well_formed(&buf, order));
    let events = parse_events(&buf, order);
    assert_eq!(events.len(), 1);
    assert_eq!(events[0].mask.bits(), FAN_MODIFY | FAN_CLOSE_NOWRITE);
    assert_eq!(events[0].fd, 42);
    assert_eq!(events[0].pid, 4242);
    let mut expected = Vec::new();
    expected.extend_from_slice(&(-7i32).to_ne_bytes());
    expected.extend_from_slice(&FAN_DENY.to_ne_bytes());
    assert_eq!(encode_response(-7, Response::deny(), order), expected);
}

#[test]
fn byte_order_from_probe() {
    assert_eq!(byte_order_of_probe(1), ByteOrder::Little);
    assert_eq!(byte_order_of_probe(256), ByteOrder::Big);
    assert_eq!(native_byte_order(), byte_order_of_probe(u16::from_ne_bytes([1, 0])));
}
