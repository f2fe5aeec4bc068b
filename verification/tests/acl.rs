use puppypeer::access::{FolderRule, Rule, RelationshipRule, FLAG_READ, FLAG_SEARCH, FLAG_WRITE, FLAG_EXECUTE};
use puppypeer::peer::PeerId;
use puppypeer::state::{Relationship, State};

fn peer(s: &str) -> PeerId {
    PeerId::new(String::from(s))
}

fn state_sharing(me: &str, path: &str, flags: u8) -> State {
    let mut st = State::new(peer(me));
    st.add_shared_folder(FolderRule::new(String::from(path), flags));
    st
}

#[test]
fn folder_rule_flags() {
    let rule = FolderRule::new(String::from("/tmp/pub"), FLAG_READ | FLAG_SEARCH);
    assert!(rule.can_read());
    assert!(!rule.can_write());
    assert!(!rule.can_execute());
    assert!(rule.can_search());
    assert_eq!(rule.path().as_str(), "/tmp/pub");
    assert!(rule.allows(FLAG_READ));
    assert!(rule.allows(FLAG_READ | FLAG_SEARCH));
    assert!(!rule.allows(FLAG_READ | FLAG_WRITE));
    assert!(!rule.allows(FLAG_EXECUTE));
}

#[test]
fn self_access_is_always_granted() {
    let st = State::new(peer("me"));
    assert!(st.has_fs_access(&peer("me"), "/anything/at/all", FLAG_READ | FLAG_WRITE, 0));
}

#[test]
fn shared_folder_grants_inside_only() {
    let st = state_sharing("me", "/tmp/pub", FLAG_READ | FLAG_SEARCH);
    let other = peer("other");
    assert!(st.has_fs_access(&other, "/tmp/pub", FLAG_READ | FLAG_SEARCH, 0));
    assert!(st.has_fs_access(&other, "/tmp/pub/note.txt", FLAG_READ | FLAG_SEARCH, 0));
    assert!(!st.has_fs_access(&other, "/tmp/pubx", FLAG_READ, 0));
    assert!(!st.has_fs_access(&other, "/tmp", FLAG_READ, 0));
    assert!(!st.has_fs_access(&other, "/etc", FLAG_READ, 0));
}

#[test]
fn flags_must_be_covered() {
    let st = state_sharing("me", "/tmp/pub", FLAG_READ | FLAG_SEARCH);
    let other = peer("other");
    assert!(!st.has_fs_access(&other, "/tmp/pub/x", FLAG_READ | FLAG_WRITE | FLAG_SEARCH, 0));
    let rw = state_sharing("me", "/tmp/rw", FLAG_READ | FLAG_WRITE | FLAG_SEARCH);
    assert!(rw.has_fs_access(&other, "/tmp/rw/x", FLAG_READ | FLAG_WRITE | FLAG_SEARCH, 0));
}

#[test]
fn traversal_resolved_target_is_checked() {
    // The handler canonicalises "/tmp/pub/../secret" to "/tmp/secret"
    // before asking; the decision on the canonical form denies it.
    let st = state_sharing("me", "/tmp/pub", FLAG_READ | FLAG_SEARCH);
    assert!(!st.has_fs_access(&peer("other"), "/tmp/secret", FLAG_READ | FLAG_SEARCH, 0));
}

#[test]
fn sharing_twice_changes_no_decision() {
    let mut st = state_sharing("me", "/tmp/pub", FLAG_READ | FLAG_SEARCH);
    let other = peer("other");
    let before_in = st.has_fs_access(&other, "/tmp/pub/a", FLAG_READ, 0);
    let before_out = st.has_fs_access(&other, "/tmp/other", FLAG_READ, 0);
    st.add_shared_folder(FolderRule::new(String::from("/tmp/pub"), FLAG_READ | FLAG_SEARCH));
    assert_eq!(st.has_fs_access(&other, "/tmp/pub/a", FLAG_READ, 0), before_in);
    assert_eq!(st.has_fs_access(&other, "/tmp/other", FLAG_READ, 0), before_out);
}

#[test]
fn owner_relationship_grants_everything() {
    let mut st = State::new(peer("me"));
    st.relationships.push(Relationship {
        src: peer("me"),
        target: peer("friend"),
        rules: vec![RelationshipRule { rule: Rule::Owner, expires_at: None }],
    });
    assert!(st.has_fs_access(&peer("friend"), "/anywhere", FLAG_READ | FLAG_WRITE, 0));
    assert!(!st.has_fs_access(&peer("stranger"), "/anywhere", FLAG_READ, 0));
}

#[test]
fn expired_relationship_rule_is_skipped() {
    let mut st = State::new(peer("me"));
    st.relationships.push(Relationship {
        src: peer("friend"),
        target: peer("me"),
        rules: vec![RelationshipRule { rule: Rule::Owner, expires_at: Some(100) }],
    });
    assert!(st.has_fs_access(&peer("friend"), "/x", FLAG_READ, 99));
    assert!(!st.has_fs_access(&peer("friend"), "/x", FLAG_READ, 100));
    assert!(!st.has_fs_access(&peer("friend"), "/x", FLAG_READ, 1000));
}

#[test]
fn relationship_folder_rule_checks_prefix_and_flags() {
    let mut st = State::new(peer("me"));
    st.relationships.push(Relationship {
        src: peer("me"),
        target: peer("friend"),
        rules: vec![RelationshipRule {
            rule: Rule::Folder(FolderRule::new(String::from("/srv/data"), FLAG_READ | FLAG_SEARCH)),
            expires_at: None,
        }],
    });
    let friend = peer("friend");
    assert!(st.has_fs_access(&friend, "/srv/data/file", FLAG_READ | FLAG_SEARCH, 0));
    assert!(!st.has_fs_access(&friend, "/srv/data/file", FLAG_WRITE, 0));
    assert!(!st.has_fs_access(&friend, "/srv/other", FLAG_READ, 0));
}

#[test]
fn discovery_dedups_exact_pairs() {
    let mut st = State::new(peer("me"));
    st.peer_discovered(peer("a"), String::from("/ip4/10.0.0.1/tcp/1"));
    st.peer_discovered(peer("a"), String::from("/ip4/10.0.0.1/tcp/1"));
    st.peer_discovered(peer("a"), String::from("/ip4/10.0.0.2/tcp/1"));
    assert_eq!(st.discovered_peers.len(), 2);
    st.peer_expired(&peer("a"), &String::from("/ip4/10.0.0.1/tcp/1"));
    assert_eq!(st.discovered_peers.len(), 1);
    assert_eq!(st.discovered_peers[0].multiaddr.as_str(), "/ip4/10.0.0.2/tcp/1");
}

#[test]
fn connections_close_by_identifier() {
    let mut st = State::new(peer("me"));
    st.connection_established(peer("a"), 1);
    st.connection_established(peer("a"), 2);
    st.connection_established(peer("b"), 3);
    st.connection_closed(2);
    assert_eq!(st.connections.len(), 2);
    assert_eq!(st.connections[0].connection_id, 1);
    assert_eq!(st.connections[1].connection_id, 3);
}

#[test]
fn duplicate_user_is_rejected() {
    let mut st = State::new(peer("me"));
    assert!(st.create_user(String::from("ada"), String::from("pw")).is_ok());
    assert!(st.create_user(String::from("ada"), String::from("pw2")).is_err());
    assert_eq!(st.users.len(), 1);
}

#[test]
fn permissions_list_shared_folders_and_relationships() {
    let mut st = state_sharing("me", "/tmp/pub", FLAG_READ | FLAG_SEARCH);
    st.relationships.push(Relationship {
        src: peer("friend"),
        target: peer("me"),
        rules: vec![RelationshipRule { rule: Rule::Owner, expires_at: Some(9) }],
    });
    let perms = st.permissions_for_peer(&peer("friend"));
    assert_eq!(perms.len(), 2);
    match &perms[0].rule {
        Rule::Folder(f) => assert_eq!(f.path().as_str(), "/tmp/pub"),
        Rule::Owner => panic!("expected the shared folder first"),
    }
    assert_eq!(perms[0].expires_at, None);
    assert!(matches!(perms[1].rule, Rule::Owner));
    assert_eq!(perms[1].expires_at, Some(9));
    let none = st.permissions_for_peer(&peer("stranger"));
    assert_eq!(none.len(), 1);
}
