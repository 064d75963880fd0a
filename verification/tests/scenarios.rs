use peerchat::address::{Address, HostAddr};
use peerchat::controller::{
    ChatController, Command, CommandAction, ReadEvent, ReadOutcome,
};
use peerchat::errors::NodeError;
use peerchat::wire::LineBuffer;

fn localhost() -> HostAddr {
    HostAddr { o0: 127, o1: 0, o2: 0, o3: 1 }
}

fn local_addr(port: u16) -> Address {
    Address { host: localhost(), port }
}

#[test]
fn connect_command_resolves_or_rejects() {
    let mut node = ChatController::new(5000);
    match node.handle_command(Command::Connect(b"127.0.0.1:5001".to_vec())) {
        CommandAction::Dial(a) => assert_eq!(a, local_addr(5001)),
        _ => panic!("a valid address must be dialled"),
    }
    match node.handle_command(Command::Connect(b"not-an-address".to_vec())) {
        CommandAction::Reject(e) => assert_eq!(e, NodeError::AddressParseFailure),
        _ => panic!("an invalid address must be rejected"),
    }
    assert!(!node.registry.contains(&local_addr(5001)));
}

#[test]
fn quit_stops_the_command_loop() {
    let mut node = ChatController::new(5000);
    assert!(node.running);
    match node.handle_command(Command::Quit) {
        CommandAction::Stop => {},
        _ => panic!("quit must stop the node"),
    }
    assert!(!node.running);
}

#[test]
fn send_with_no_peers_delivers_to_nobody() {
    let mut node = ChatController::new(5000);
    match node.handle_command(Command::Send(b"anyone there".to_vec())) {
        CommandAction::Deliver { targets, frame } => {
            assert_eq!(targets.len(), 0);
            assert_eq!(frame, b"anyone there\n".to_vec());
        },
        _ => panic!("send must produce a delivery"),
    }
}

/// Two nodes: B dials A, sends a line, then closes. A sees the message
/// attributed to B and afterwards no longer lists B.
#[test]
fn dial_send_close_between_two_nodes() {
    let mut node_a = ChatController::new(5000);
    let mut node_b = ChatController::new(5001);
    let addr_a = local_addr(5000);
    let addr_b = local_addr(5001);

    // B resolves A's address and dials; the connection succeeds on both
    // sides: B registers A, and A's acceptor registers B.
    let dial = match node_b.handle_command(Command::Connect(b"127.0.0.1:5000".to_vec())) {
        CommandAction::Dial(a) => a,
        _ => panic!("B must dial A"),
    };
    assert_eq!(dial, addr_a);
    node_b.peer_connected(dial);
    node_a.peer_connected(addr_b);
    assert!(node_a.registry.contains(&addr_b));
    assert!(node_b.registry.contains(&addr_a));

    // B broadcasts "hello": the frame goes to every link of B's snapshot.
    let (targets, frame) = match node_b.handle_command(Command::Send(b"hello".to_vec())) {
        CommandAction::Deliver { targets, frame } => (targets, frame),
        _ => panic!("send must produce a delivery"),
    };
    assert_eq!(targets.len(), 1);
    assert_eq!(targets[0].addr, addr_a);
    assert_eq!(frame, b"hello\n".to_vec());

    // A's read loop for B's link buffers the bytes and sees one line.
    let mut buf = LineBuffer::new();
    buf.push_chunk(&frame);
    let line = buf.next_message().expect("one full line arrived");
    match node_a.read_event(addr_b, ReadEvent::Line(line)) {
        ReadOutcome::Display { from, text } => {
            assert_eq!(from, addr_b);
            assert_eq!(text, b"hello".to_vec());
        },
        _ => panic!("a line must be displayed"),
    }
    assert!(node_a.registry.contains(&addr_b));

    // B closes the link: A's read loop sees a clean end-of-stream and
    // removes exactly B's entry.
    match node_a.read_event(addr_b, ReadEvent::Closed) {
        ReadOutcome::Disconnected { addr, error } => {
            assert_eq!(addr, addr_b);
            assert_eq!(error, NodeError::CleanClose);
        },
        _ => panic!("a clean close must deregister the peer"),
    }
    assert!(!node_a.registry.contains(&addr_b));
}

/// A failed read deregisters exactly the failing peer and nobody else.
#[test]
fn read_failure_removes_only_its_own_entry() {
    let mut node = ChatController::new(5000);
    let addr_b = local_addr(5001);
    let addr_c = local_addr(5002);
    node.peer_connected(addr_b);
    node.peer_connected(addr_c);
    match node.read_event(addr_b, ReadEvent::Failed) {
        ReadOutcome::Disconnected { addr, error } => {
            assert_eq!(addr, addr_b);
            assert_eq!(error, NodeError::StreamError);
        },
        _ => panic!("a failed read must deregister the peer"),
    }
    assert!(!node.registry.contains(&addr_b));
    assert!(node.registry.contains(&addr_c));
}

#[test]
fn discovery_never_dials_self_or_known_peers() {
    let mut node = ChatController::new(5000);
    let own_payload = node.announcement();
    assert_eq!(own_payload, b"HELLO: 5000".to_vec());

    // The broadcast loops back: the announced port is the node's own.
    assert_eq!(node.discovery_event(localhost(), &own_payload), None);

    // A new peer announces port 5001: dial it once.
    let payload_b = peerchat::discovery::encode_announcement(5001);
    let target = node.discovery_event(localhost(), &payload_b);
    assert_eq!(target, Some(local_addr(5001)));
    node.peer_connected(local_addr(5001));

    // The same announcement again: the address is registered, no second dial.
    assert_eq!(node.discovery_event(localhost(), &payload_b), None);

    // Rubbish payloads are discarded.
    assert_eq!(node.discovery_event(localhost(), b"HELLO 5001"), None);
}

/// Three nodes with discovery on the same broadcast port converge to a fully
/// connected graph: for each pair exactly one side dials, never both.
#[test]
fn three_nodes_converge_to_full_mesh() {
    let ports: [u16; 3] = [5000, 5001, 5002];
    let mut nodes: Vec<ChatController> =
        ports.iter().map(|p| ChatController::new(*p)).collect();
    let payloads: Vec<Vec<u8>> = nodes.iter().map(|n| n.announcement()).collect();
    let mut dials: usize = 0;

    // One announcement period: every node hears every announcement, its own
    // included, and dials whatever it does not know yet. A successful dial
    // registers the pair on both sides.
    for hearer in 0..3 {
        for announcer in 0..3 {
            if let Some(target) = nodes[hearer].discovery_event(localhost(), &payloads[announcer])
            {
                assert_eq!(target, local_addr(ports[announcer]));
                assert_ne!(hearer, announcer);
                dials += 1;
                nodes[hearer].peer_connected(target);
                nodes[announcer].peer_connected(local_addr(ports[hearer]));
            }
        }
    }

    // Each unordered pair dialled exactly once, and the mesh is complete.
    assert_eq!(dials, 3);
    for i in 0..3 {
        for j in 0..3 {
            if i != j {
                assert!(nodes[i].registry.contains(&local_addr(ports[j])));
            }
        }
        assert!(!nodes[i].registry.contains(&local_addr(ports[i])));
        assert_eq!(nodes[i].registry.len(), 2);
    }

    // A further period changes nothing: everyone already knows everyone.
    for hearer in 0..3 {
        for announcer in 0..3 {
            assert_eq!(nodes[hearer].discovery_event(localhost(), &payloads[announcer]), None);
        }
    }
}
