use puppypeer::authz::{
    default_permissions_for_roles, hash_password, normalize_path, normalize_role, path_matches,
    to_hex, verify_password, Capability,
};
use puppypeer::format::{
    abbreviate_hash, abbreviate_peer_id, convert_hash_to_string, format_frequency, format_size,
    get_version, u64_to_dec,
};
use puppypeer::paths::{join_child_path, join_path, parent_path, path_starts_with, split_parent};
use puppypeer::protocol::{FileAccess, PermissionGrant};

#[test]
fn component_wise_prefix() {
    assert!(path_starts_with("/tmp/pub", "/tmp/pub"));
    assert!(path_starts_with("/tmp/pub/x", "/tmp/pub"));
    assert!(path_starts_with("/tmp/pub/a/b", "/"));
    assert!(!path_starts_with("/tmp/pubx", "/tmp/pub"));
    assert!(!path_starts_with("/tmp", "/tmp/pub"));
}

#[test]
fn parent_splitting() {
    assert_eq!(split_parent("/a/b/c"), Some((String::from("/a/b"), String::from("c"))));
    assert_eq!(split_parent("/c"), Some((String::from("/"), String::from("c"))));
    assert_eq!(split_parent("bare"), None);
    assert_eq!(split_parent("/a/"), Some((String::from("/a"), String::from(""))));
}

#[test]
fn joining_below_a_canonical_parent() {
    assert_eq!(join_path("/a/b", "c").as_str(), "/a/b/c");
    assert_eq!(join_path("/", "c").as_str(), "/c");
}

#[test]
fn normalisation_unifies_separators() {
    assert_eq!(normalize_path("  /a/b/  ").as_str(), "/a/b");
    assert_eq!(normalize_path("\\a\\b").as_str(), "/a/b");
    assert_eq!(normalize_path("").as_str(), "/");
    assert_eq!(normalize_path("   ").as_str(), "/");
    assert_eq!(normalize_path("/").as_str(), "/");
    assert_eq!(normalize_path("///").as_str(), "/");
}

#[test]
fn grant_paths_cover_their_subtree() {
    assert!(path_matches("/", "/anything"));
    assert!(path_matches("*", "/anything"));
    assert!(path_matches("", "/anything"));
    assert!(path_matches("/data", "/data"));
    assert!(path_matches("/data", "/data/sub/file"));
    assert!(path_matches("/data/", "/data/sub"));
    assert!(!path_matches("/data", "/database"));
    assert!(!path_matches("/data/sub", "/data"));
    assert!(path_matches("data", "/data/x"));
}

#[test]
fn grants_cover_capabilities() {
    let read = Capability::FileRead(String::from("/data/f"));
    let write = Capability::FileWrite(String::from("/data/f"));
    assert!(PermissionGrant::Owner.allows(&write));
    assert!(PermissionGrant::Viewer.allows(&read));
    assert!(!PermissionGrant::Viewer.allows(&write));
    let ro = PermissionGrant::Files { path: String::from("/data"), access: FileAccess::Read };
    let rw = PermissionGrant::Files { path: String::from("/data"), access: FileAccess::ReadWrite };
    assert!(ro.allows(&read));
    assert!(!ro.allows(&write));
    assert!(rw.allows(&write));
    assert!(!rw.allows(&Capability::System));
    assert!(PermissionGrant::SystemInfo.allows(&Capability::System));
    assert!(!PermissionGrant::SystemInfo.allows(&Capability::Disks));
    assert!(PermissionGrant::DiskInfo.allows(&Capability::Disks));
    assert!(PermissionGrant::NetworkInfo.allows(&Capability::Network));
}

#[test]
fn role_names_fold() {
    assert_eq!(normalize_role("  Owner ").as_str(), "owner");
    assert_eq!(normalize_role("VIEWER").as_str(), "viewer");
}

#[test]
fn default_role_grants() {
    let owner = default_permissions_for_roles(&vec![String::from("owner"), String::from("viewer")]);
    assert_eq!(owner.len(), 1);
    assert!(matches!(owner[0], PermissionGrant::Owner));
    let viewer = default_permissions_for_roles(&vec![String::from("viewer")]);
    assert_eq!(viewer.len(), 5);
    assert!(matches!(viewer[0], PermissionGrant::Viewer));
    match &viewer[4] {
        PermissionGrant::Files { path, access } => {
            assert_eq!(path.as_str(), "/");
            assert_eq!(*access, FileAccess::Read);
        },
        _ => panic!("expected the read-everywhere grant"),
    }
    assert!(default_permissions_for_roles(&vec![String::from("guest")]).is_empty());
}

#[test]
fn password_digest_prints_known_vector() {
    // SHA-256 of the empty input.
    assert_eq!(
        hash_password("", "").as_str(),
        "e3b0c44298fc1c149afbf4c8996fb92427ae41e4649b934ca495991b7852b855"
    );
    assert!(verify_password(
        "",
        "",
        "e3b0c44298fc1c149afbf4c8996fb92427ae41e4649b934ca495991b7852b855"
    ));
    assert!(!verify_password("", "x", "e3b0c44298fc1c149afbf4c8996fb92427ae41e4649b934ca495991b7852b855"));
    // The same bytes split differently digest alike: the salt is a prefix.
    assert_eq!(hash_password("ab", "cd").as_str(), hash_password("abc", "d").as_str());
}

#[test]
fn hex_renders_two_digits_per_byte() {
    assert_eq!(to_hex(&vec![0x00u8, 0x0f, 0xa5]).as_str(), "000fa5");
    assert_eq!(to_hex(&Vec::new()).as_str(), "");
}

#[test]
fn digest_string_is_unpadded() {
    assert_eq!(convert_hash_to_string(&[0x0au8, 0xff, 0x03]).as_str(), "aff3");
    assert_eq!(convert_hash_to_string(&[]).as_str(), "");
    assert_eq!(convert_hash_to_string(&[0x10u8]).as_str(), "10");
}

#[test]
fn decimal_rendering() {
    assert_eq!(u64_to_dec(0).as_str(), "0");
    assert_eq!(u64_to_dec(907).as_str(), "907");
    assert_eq!(u64_to_dec(18446744073709551615).as_str(), "18446744073709551615");
}

#[test]
fn sizes_scale_to_binary_units() {
    assert_eq!(format_size(512).as_str(), "512 B");
    assert_eq!(format_size(2048).as_str(), "2.00 KiB");
    assert_eq!(format_size(1536).as_str(), "1.50 KiB");
    assert_eq!(format_size(3 * 1024 * 1024).as_str(), "3.00 MiB");
    assert_eq!(format_size(5 * 1024 * 1024 * 1024).as_str(), "5.00 GiB");
}

#[test]
fn frequencies_scale_to_hertz_units() {
    assert_eq!(format_frequency(950).as_str(), "950 Hz");
    assert_eq!(format_frequency(2_500_000).as_str(), "2.50 MHz");
    assert_eq!(format_frequency(3_210_000_000).as_str(), "3.21 GHz");
}

#[test]
fn identifiers_abbreviate_around_an_ellipsis() {
    assert_eq!(abbreviate_peer_id("short").as_str(), "short");
    assert_eq!(
        abbreviate_peer_id("12D3KooWEyoppNCUx8Yx66oV9fJnriXwCcXwDDUA2kj6vnc6iDEp").as_str(),
        "12D3KooW…c6iDEp"
    );
    assert_eq!(abbreviate_hash("0123456789abcdef0").as_str(), "0123456789abcdef0");
    assert_eq!(abbreviate_hash("0123456789abcdef01").as_str(), "01234567…abcdef01");
}

#[test]
fn version_labels_parse_or_default() {
    assert_eq!(get_version(None), 0);
    assert_eq!(get_version(Some("123")), 123);
    assert_eq!(get_version(Some("+7")), 7);
    assert_eq!(get_version(Some("")), 0);
    assert_eq!(get_version(Some("1.2")), 0);
    assert_eq!(get_version(Some("abc")), 0);
    assert_eq!(get_version(Some("4294967295")), 4294967295);
    assert_eq!(get_version(Some("4294967296")), 0);
    assert_eq!(get_version(Some("99999999999999999999")), 0);
}

#[test]
fn browse_paths_join_and_climb() {
    assert_eq!(join_child_path("/", "docs").as_str(), "/docs");
    assert_eq!(join_child_path("", "docs").as_str(), "/docs");
    assert_eq!(join_child_path("/a/b", "c").as_str(), "/a/b/c");
    assert_eq!(join_child_path("/a/b/", "/c").as_str(), "/a/b/c");
    assert_eq!(parent_path("/").as_str(), "/");
    assert_eq!(parent_path("/a").as_str(), "/");
    assert_eq!(parent_path("/a/b").as_str(), "/a");
    assert_eq!(parent_path("/a/b/").as_str(), "/a");
    assert_eq!(parent_path("plain").as_str(), "/");
}
