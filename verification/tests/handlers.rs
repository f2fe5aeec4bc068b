use puppypeer::access::{FolderRule, FLAG_READ, FLAG_SEARCH, FLAG_WRITE};
use puppypeer::handlers::{
    handle_local_request, plan_fs_request, required_flags, split_write_path, FsVerdict,
};
use puppypeer::peer::PeerId;
use puppypeer::protocol::{AuthMethod, PeerReq, PeerRes};
use puppypeer::state::State;

fn peer(s: &str) -> PeerId {
    PeerId::new(String::from(s))
}

fn sharing_state() -> State {
    let mut st = State::new(peer("me"));
    st.add_shared_folder(FolderRule::new(String::from("/tmp/pub"), FLAG_READ | FLAG_SEARCH));
    st
}

#[test]
fn allowed_request_proceeds_on_the_canonical_path() {
    let st = sharing_state();
    let v = plan_fs_request(
        &st,
        &peer("other"),
        Ok(String::from("/tmp/pub/note.txt")),
        "Failed to access file: ",
        FLAG_READ | FLAG_SEARCH,
        0,
    );
    match v {
        FsVerdict::Proceed(c) => assert_eq!(c.as_str(), "/tmp/pub/note.txt"),
        FsVerdict::Deny(_) => panic!("a shared path must proceed"),
    }
}

#[test]
fn denied_request_gets_the_fixed_message() {
    let st = sharing_state();
    for path in ["/etc", "/tmp/secret", "/tmp/pub2"] {
        let v = plan_fs_request(
            &st,
            &peer("other"),
            Ok(String::from(path)),
            "Failed to access directory: ",
            FLAG_READ | FLAG_SEARCH,
            0,
        );
        match v {
            FsVerdict::Deny(m) => assert_eq!(m.as_str(), "Access denied"),
            FsVerdict::Proceed(_) => panic!("an unshared path must be denied"),
        }
    }
}

#[test]
fn failed_canonicalisation_reports_the_cause() {
    let st = sharing_state();
    let v = plan_fs_request(
        &st,
        &peer("other"),
        Err(String::from("No such file or directory")),
        "Failed to access directory: ",
        FLAG_READ | FLAG_SEARCH,
        0,
    );
    match v {
        FsVerdict::Deny(m) => {
            assert_eq!(m.as_str(), "Failed to access directory: No such file or directory")
        },
        FsVerdict::Proceed(_) => panic!("an unresolvable path cannot proceed"),
    }
}

#[test]
fn required_flags_per_request() {
    assert_eq!(
        required_flags(&PeerReq::ListDir { path: String::new() }),
        FLAG_READ | FLAG_SEARCH
    );
    assert_eq!(
        required_flags(&PeerReq::StatFile { path: String::new() }),
        FLAG_READ | FLAG_SEARCH
    );
    assert_eq!(
        required_flags(&PeerReq::ReadFile { path: String::new(), offset: 0, length: None }),
        FLAG_READ | FLAG_SEARCH
    );
    assert_eq!(
        required_flags(&PeerReq::WriteFile { path: String::new(), offset: 0, data: Vec::new() }),
        FLAG_READ | FLAG_WRITE | FLAG_SEARCH
    );
}

#[test]
fn write_path_splits_at_the_last_separator() {
    assert_eq!(
        split_write_path("/tmp/rw/x"),
        Ok((String::from("/tmp/rw"), String::from("x")))
    );
    assert_eq!(split_write_path("/x"), Ok((String::from("/"), String::from("x"))));
    assert_eq!(split_write_path("/tmp/rw/"), Err(String::from("Invalid file name")));
    assert_eq!(split_write_path("plain"), Err(String::from("Invalid path")));
}

fn error_text(r: Option<PeerRes>) -> String {
    match r {
        Some(PeerRes::Error(m)) => m,
        _ => panic!("expected an error reply"),
    }
}

#[test]
fn reserved_tags_answer_not_implemented() {
    let mut st = State::new(peer("me"));
    let other = peer("other");
    assert_eq!(
        error_text(handle_local_request(&mut st, &other, PeerReq::ListDisks)),
        "ListDisks not implemented"
    );
    assert_eq!(
        error_text(handle_local_request(&mut st, &other, PeerReq::Authenticate {
            method: AuthMethod::Token { token: String::new() },
        })),
        "Authenticate not implemented"
    );
    assert_eq!(
        error_text(handle_local_request(&mut st, &other, PeerReq::ListUsers)),
        "ListUsers not implemented"
    );
    assert_eq!(
        error_text(handle_local_request(&mut st, &other, PeerReq::ListTokens { username: None })),
        "ListTokens not implemented"
    );
    assert_eq!(
        error_text(handle_local_request(&mut st, &other, PeerReq::RevokeToken {
            token_id: String::new(),
        })),
        "RevokeToken not implemented"
    );
    assert_eq!(
        error_text(handle_local_request(&mut st, &other, PeerReq::RevokeUser {
            username: String::new(),
        })),
        "RevokeUser not implemented"
    );
    assert_eq!(
        error_text(handle_local_request(&mut st, &other, PeerReq::GrantAccess {
            username: String::new(),
            permissions: Vec::new(),
            merge: false,
        })),
        "GrantAccess not implemented"
    );
    assert_eq!(
        error_text(handle_local_request(&mut st, &other, PeerReq::CreateToken {
            username: String::new(),
            label: None,
            expires_in: None,
            permissions: Vec::new(),
        })),
        "CreateToken not implemented"
    );
}

#[test]
fn io_requests_are_not_answered_locally() {
    let mut st = State::new(peer("me"));
    let other = peer("other");
    assert!(handle_local_request(&mut st, &other, PeerReq::ListDir {
        path: String::from("/tmp"),
    })
    .is_none());
    assert!(handle_local_request(&mut st, &other, PeerReq::ListCpus).is_none());
    assert!(handle_local_request(&mut st, &other, PeerReq::ListInterfaces).is_none());
}

#[test]
fn create_user_succeeds_once() {
    let mut st = State::new(peer("me"));
    let other = peer("other");
    let first = handle_local_request(&mut st, &other, PeerReq::CreateUser {
        username: String::from("ada"),
        password: String::from("pw"),
        roles: Vec::new(),
        permissions: Vec::new(),
    });
    match first {
        Some(PeerRes::UserCreated { username }) => assert_eq!(username.as_str(), "ada"),
        _ => panic!("expected the user to be created"),
    }
    let again = handle_local_request(&mut st, &other, PeerReq::CreateUser {
        username: String::from("ada"),
        password: String::from("other"),
        roles: Vec::new(),
        permissions: Vec::new(),
    });
    assert_eq!(error_text(again), "User already exists");
}

#[test]
fn list_permissions_answers_locally() {
    let mut st = sharing_state();
    let r = handle_local_request(&mut st, &peer("other"), PeerReq::ListPermissions);
    match r {
        Some(PeerRes::Permissions(ps)) => assert_eq!(ps.len(), 1),
        _ => panic!("expected a permission listing"),
    }
}
