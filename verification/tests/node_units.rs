use peerchat::address::{Address, HostAddr};
use peerchat::broadcast::broadcast_report;
use peerchat::discovery::{encode_announcement, parse_announcement};
use peerchat::errors::NodeError;
use peerchat::link::{LinkState, PeerLink};
use peerchat::registry::PeerRegistry;
use peerchat::wire::{frame_message, LineBuffer};

fn addr(o3: u8, port: u16) -> Address {
    Address { host: HostAddr { o0: 127, o1: 0, o2: 0, o3 }, port }
}

#[test]
fn announcement_encodes_hello_and_port() {
    assert_eq!(encode_announcement(5000), b"HELLO: 5000".to_vec());
    assert_eq!(encode_announcement(0), b"HELLO: 0".to_vec());
}

#[test]
fn announcement_round_trips() {
    assert_eq!(parse_announcement(&encode_announcement(5000)), Some(5000));
    assert_eq!(parse_announcement(&encode_announcement(65535)), Some(65535));
    assert_eq!(parse_announcement(b"HELLO: 9999"), Some(9999));
}

#[test]
fn announcement_rejects_malformed_payloads() {
    assert_eq!(parse_announcement(b""), None);
    assert_eq!(parse_announcement(b"HELLO:5000"), None);
    assert_eq!(parse_announcement(b"hello: 5000"), None);
    assert_eq!(parse_announcement(b"HELLO: "), None);
    assert_eq!(parse_announcement(b"HELLO: 05"), None);
    assert_eq!(parse_announcement(b"HELLO: 65536"), None);
    assert_eq!(parse_announcement(b"HELLO: 5000 "), None);
    assert_eq!(parse_announcement(b"GOODBYE: 5000"), None);
}

#[test]
fn registry_insert_remove_contains() {
    let mut reg = PeerRegistry::new();
    let a = addr(1, 5000);
    let b = addr(2, 5001);
    assert!(!reg.contains(&a));
    reg.insert(PeerLink::open(a));
    assert!(reg.contains(&a));
    assert!(!reg.contains(&b));
    reg.insert(PeerLink::open(b));
    assert_eq!(reg.len(), 2);
    reg.remove(&a);
    assert!(!reg.contains(&a));
    assert!(reg.contains(&b));
    assert_eq!(reg.len(), 1);
}

#[test]
fn registry_insert_replaces_same_address() {
    let mut reg = PeerRegistry::new();
    let a = addr(1, 5000);
    reg.insert(PeerLink::open(a));
    reg.insert(PeerLink::open(a));
    assert_eq!(reg.len(), 1);
    let snap = reg.snapshot();
    assert_eq!(snap.len(), 1);
    assert_eq!(snap[0].addr, a);
}

#[test]
fn registry_remove_absent_changes_nothing() {
    let mut reg = PeerRegistry::new();
    reg.insert(PeerLink::open(addr(1, 5000)));
    reg.remove(&addr(9, 9));
    assert_eq!(reg.len(), 1);
}

#[test]
fn snapshot_lists_only_live_links() {
    let mut reg = PeerRegistry::new();
    reg.insert(PeerLink::open(addr(1, 5000)));
    reg.insert(PeerLink::open(addr(2, 5001)));
    reg.insert(PeerLink::open(addr(3, 5002)));
    let snap = reg.snapshot();
    assert_eq!(snap.len(), 3);
    for link in &snap {
        assert_eq!(link.state, LinkState::Established);
    }
    for i in 0..snap.len() {
        for j in 0..snap.len() {
            if i != j {
                assert_ne!(snap[i].addr, snap[j].addr);
            }
        }
    }
}

#[test]
fn link_lifecycle_steps() {
    let a = addr(1, 5000);
    let mut l = PeerLink::connecting(a);
    assert_eq!(l.state, LinkState::Connecting);
    assert!(!l.can_use());
    l.establish();
    assert!(l.can_use());
    l.close_clean();
    assert_eq!(l.state, LinkState::ClosedClean);
    assert!(!l.can_use());
    let mut m = PeerLink::open(a);
    m.close_error();
    assert_eq!(m.state, LinkState::ClosedError);
}

#[test]
fn broadcast_counts_partial_failure() {
    let targets = vec![
        PeerLink::open(addr(1, 5000)),
        PeerLink::open(addr(2, 5001)),
        PeerLink::open(addr(3, 5002)),
    ];
    let outcomes = vec![true, false, true];
    let report = broadcast_report(&targets, &outcomes);
    assert_eq!(report.delivered, vec![addr(1, 5000), addr(3, 5002)]);
    assert_eq!(report.failed, vec![addr(2, 5001)]);
    assert_eq!(report.delivered.len() + report.failed.len(), targets.len());
}

#[test]
fn broadcast_all_reachable_and_all_unreachable() {
    let targets = vec![PeerLink::open(addr(1, 5000)), PeerLink::open(addr(2, 5001))];
    let all_ok = broadcast_report(&targets, &vec![true, true]);
    assert_eq!(all_ok.delivered.len(), 2);
    assert_eq!(all_ok.failed.len(), 0);
    let none_ok = broadcast_report(&targets, &vec![false, false]);
    assert_eq!(none_ok.delivered.len(), 0);
    assert_eq!(none_ok.failed.len(), 2);
    let empty = broadcast_report(&Vec::new(), &Vec::new());
    assert_eq!(empty.delivered.len(), 0);
    assert_eq!(empty.failed.len(), 0);
}

#[test]
fn frame_appends_newline() {
    assert_eq!(frame_message(b"hello"), b"hello\n".to_vec());
    assert_eq!(frame_message(b""), b"\n".to_vec());
}

#[test]
fn line_buffer_joins_partial_reads() {
    let mut buf = LineBuffer::new();
    buf.push_chunk(b"he");
    assert_eq!(buf.next_message(), None);
    buf.push_chunk(b"llo\nwo");
    assert_eq!(buf.next_message(), Some(b"hello".to_vec()));
    assert_eq!(buf.next_message(), None);
    buf.push_chunk(b"rld\n");
    assert_eq!(buf.next_message(), Some(b"world".to_vec()));
    assert_eq!(buf.next_message(), None);
}

#[test]
fn line_buffer_splits_two_lines_in_one_read() {
    let mut buf = LineBuffer::new();
    buf.push_chunk(b"one\ntwo\n");
    assert_eq!(buf.next_message(), Some(b"one".to_vec()));
    assert_eq!(buf.next_message(), Some(b"two".to_vec()));
    assert_eq!(buf.next_message(), None);
}

#[test]
fn line_buffer_strips_carriage_return() {
    let mut buf = LineBuffer::new();
    buf.push_chunk(b"msg\r\n\n");
    assert_eq!(buf.next_message(), Some(b"msg".to_vec()));
    assert_eq!(buf.next_message(), Some(b"".to_vec()));
}

#[test]
fn only_bind_failure_is_fatal() {
    assert!(NodeError::BindFailure.is_fatal());
    assert!(!NodeError::DialFailure.is_fatal());
    assert!(!NodeError::StreamError.is_fatal());
    assert!(!NodeError::CleanClose.is_fatal());
    assert!(!NodeError::MalformedDiscovery.is_fatal());
    assert!(!NodeError::AddressParseFailure.is_fatal());
}

#[test]
fn error_labels_name_the_failure() {
    assert_eq!(NodeError::BindFailure.label(), "bind failure");
    assert_eq!(NodeError::CleanClose.label(), "clean close");
    assert_eq!(NodeError::AddressParseFailure.label(), "invalid peer address");
}
