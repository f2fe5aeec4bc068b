use puppypeer::actor::{
    command_is_local, decode_response, expected_kind, request_of_command, Command, Decoded,
    ResKind, WaiterTable,
};
use puppypeer::fsops::FileChunk;
use puppypeer::peer::PeerId;
use puppypeer::protocol::{PeerReq, PeerRes};

fn peer(s: &str) -> PeerId {
    PeerId::new(String::from(s))
}

#[test]
fn waiter_completes_at_most_once() {
    let mut t = WaiterTable::new();
    assert_eq!(t.insert(7, ResKind::DirEntries), None);
    assert_eq!(t.take(7), Some(ResKind::DirEntries));
    assert_eq!(t.take(7), None);
}

#[test]
fn waiters_are_kept_per_identifier() {
    let mut t = WaiterTable::new();
    t.insert(1, ResKind::Cpus);
    t.insert(2, ResKind::FileChunk);
    assert_eq!(t.take(2), Some(ResKind::FileChunk));
    assert_eq!(t.take(3), None);
    assert_eq!(t.take(1), Some(ResKind::Cpus));
}

#[test]
fn reused_identifier_replaces_previous_waiter() {
    let mut t = WaiterTable::new();
    assert_eq!(t.insert(5, ResKind::Cpus), None);
    assert_eq!(t.insert(5, ResKind::Permissions), Some(ResKind::Cpus));
    assert_eq!(t.take(5), Some(ResKind::Permissions));
}

#[test]
fn decode_matches_expected_variant() {
    match decode_response(ResKind::DirEntries, PeerRes::DirEntries(Vec::new())) {
        Ok(Decoded::Dir(v)) => assert!(v.is_empty()),
        _ => panic!("expected a directory listing"),
    }
    match decode_response(
        ResKind::FileChunk,
        PeerRes::FileChunk(FileChunk { offset: 0, data: vec![1], eof: true }),
    ) {
        Ok(Decoded::Chunk(c)) => {
            assert_eq!(c.data, vec![1u8]);
            assert!(c.eof);
        },
        _ => panic!("expected a chunk"),
    }
}

#[test]
fn decode_propagates_wire_errors() {
    match decode_response(ResKind::Cpus, PeerRes::Error(String::from("Access denied"))) {
        Err(e) => assert_eq!(e.as_str(), "Access denied"),
        Ok(_) => panic!("a wire error must fail the waiter"),
    }
}

#[test]
fn decode_refuses_mismatched_variant() {
    match decode_response(ResKind::Cpus, PeerRes::DirEntries(Vec::new())) {
        Err(e) => assert_eq!(e.as_str(), "unexpected response"),
        Ok(_) => panic!("a mismatch must fail the waiter"),
    }
}

#[test]
fn self_targeted_commands_are_local() {
    let me = peer("me");
    let local = Command::ListDir { peer: peer("me"), path: String::from("/tmp") };
    let remote = Command::ListDir { peer: peer("other"), path: String::from("/tmp") };
    let connect = Command::Connect { addr: String::from("/ip4/127.0.0.1/tcp/1") };
    assert!(command_is_local(&me, &local));
    assert!(!command_is_local(&me, &remote));
    assert!(!command_is_local(&me, &connect));
}

#[test]
fn commands_expect_their_response_kind() {
    assert_eq!(
        expected_kind(&Command::ListDir { peer: peer("p"), path: String::new() }),
        Some(ResKind::DirEntries)
    );
    assert_eq!(expected_kind(&Command::ListCpus { peer_id: peer("p") }), Some(ResKind::Cpus));
    assert_eq!(
        expected_kind(&Command::ListPermissions { peer: peer("p") }),
        Some(ResKind::Permissions)
    );
    assert_eq!(
        expected_kind(&Command::ReadFile {
            peer_id: peer("p"),
            path: String::new(),
            offset: 0,
            length: None
        }),
        Some(ResKind::FileChunk)
    );
    assert_eq!(expected_kind(&Command::Connect { addr: String::new() }), None);
}

#[test]
fn commands_turn_into_wire_requests() {
    let r = request_of_command(Command::ReadFile {
        peer_id: peer("p"),
        path: String::from("/f"),
        offset: 4,
        length: Some(2),
    });
    match r {
        Some((target, PeerReq::ReadFile { path, offset, length })) => {
            assert_eq!(target.id.as_str(), "p");
            assert_eq!(path.as_str(), "/f");
            assert_eq!(offset, 4);
            assert_eq!(length, Some(2));
        },
        _ => panic!("expected a read request"),
    }
    assert!(request_of_command(Command::Connect { addr: String::from("/x") }).is_none());
}
