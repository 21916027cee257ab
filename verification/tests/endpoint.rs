use desktop_native::endpoint::{below, path, pipe_endpoint, pipe_path, user_root, Strategy};

#[test]
fn pipe_name_is_built_around_the_segment() {
    assert_eq!(pipe_path("SEGMENT", "bitwarden"), r"\\.\pipe\SEGMENT.app.bitwarden");
    assert_eq!(pipe_path("", ""), r"\\.\pipe\.app.");
}

#[test]
fn pipe_holds_the_hashed_home_directory() {
    assert_eq!(
        path(Strategy::NamedPipe, r"C:\Users\alice", "bitwarden").unwrap(),
        r"\\.\pipe\55xg59lf2IwVCPBb0dhGQRxoLS7jk7innNMhhQmtN7s.app.bitwarden"
    );
    assert_eq!(
        path(Strategy::NamedPipe, "/home/user", "test").unwrap(),
        r"\\.\pipe\uY1pLEV0qA5QjPb6OObyeuU0jmFkSO2qf-Z142Nmn9I.app.test"
    );
    assert_eq!(
        path(Strategy::NamedPipe, "", "test").unwrap(),
        r"\\.\pipe\47DEQpj8HBSa-_TImW-5JCeuQeRkm5NMpJWZG3hSuFU.app.test"
    );
}

#[test]
fn pipe_segment_has_forty_three_safe_characters() {
    for home in [r"C:\Users\alice", r"C:\Users\bob", "/home/\u{e9}milie", ""] {
        let endpoint = path(Strategy::NamedPipe, home, "n").unwrap();
        let segment = endpoint.strip_prefix(r"\\.\pipe\").unwrap().strip_suffix(".app.n").unwrap();
        assert_eq!(segment.len(), 43);
        assert!(segment.chars().all(|c| c.is_ascii_alphanumeric() || c == '-' || c == '_'));
    }
}

#[test]
fn cache_directory_endpoint() {
    assert_eq!(
        path(Strategy::CacheDirectory, "/home/user/.cache", "bitwarden").unwrap(),
        "/home/user/.cache/com.bitwarden.desktop/app.bitwarden"
    );
    assert_eq!(
        path(Strategy::CacheDirectory, "/home/user/.cache/", "bitwarden").unwrap(),
        "/home/user/.cache/com.bitwarden.desktop/app.bitwarden"
    );
    assert_eq!(
        path(Strategy::CacheDirectory, "", "x").unwrap(),
        "com.bitwarden.desktop/app.x"
    );
}

#[test]
fn temporary_directory_endpoint() {
    assert_eq!(path(Strategy::TemporaryDirectory, "/tmp", "test").unwrap(), "/tmp/app.test");
    assert_eq!(
        path(Strategy::TemporaryDirectory, "/var/folders/ab/T/", "test").unwrap(),
        "/var/folders/ab/T/app.test"
    );
}

#[test]
fn group_container_endpoint() {
    let expected =
        "/Users/alice/Library/Group Containers/LTZ2PFU5D6.com.bitwarden.desktop/tmp/app.bitwarden";
    assert_eq!(path(Strategy::GroupContainer, "/Users/alice", "bitwarden").unwrap(), expected);
    assert_eq!(
        path(
            Strategy::GroupContainer,
            "/Users/alice/Library/Containers/com.bitwarden.desktop/Data",
            "bitwarden"
        )
        .unwrap(),
        expected
    );
}

#[test]
fn group_container_needs_a_user_directory() {
    assert_eq!(path(Strategy::GroupContainer, "/", "x"), None);
    assert_eq!(path(Strategy::GroupContainer, "/Users", "x"), None);
    assert_eq!(path(Strategy::GroupContainer, "/Users/", "x"), None);
    assert_eq!(path(Strategy::GroupContainer, "", "x"), None);
    assert_eq!(path(Strategy::GroupContainer, "Users/alice/x", "x"), None);
}

#[test]
fn user_root_is_the_root_and_two_components() {
    assert_eq!(user_root("/Users/alice").as_deref(), Some("/Users/alice"));
    assert_eq!(user_root("/Users/alice/").as_deref(), Some("/Users/alice"));
    assert_eq!(user_root("/Users/alice/Library/x").as_deref(), Some("/Users/alice"));
    assert_eq!(user_root("//Users///alice//x").as_deref(), Some("//Users///alice"));
    assert_eq!(user_root("/./Users/./alice/./x").as_deref(), Some("/./Users/./alice"));
    assert_eq!(user_root("/Users/..").as_deref(), Some("/Users/.."));
    assert_eq!(user_root("/Users/.hidden").as_deref(), Some("/Users/.hidden"));
    assert_eq!(user_root("/\u{7528}\u{6237}/\u{5f20}\u{4e09}/x").as_deref(), Some("/\u{7528}\u{6237}/\u{5f20}\u{4e09}"));
    assert_eq!(user_root("/Users/."), None);
    assert_eq!(user_root("/./."), None);
    assert_eq!(user_root("relative/path/here"), None);
}

#[test]
fn below_adds_one_separator_where_needed() {
    assert_eq!(below("/a", "b"), "/a/b");
    assert_eq!(below("/a/", "b"), "/a/b");
    assert_eq!(below("", "b"), "b");
    assert_eq!(below("/", "b"), "/b");
}

#[test]
fn resolution_is_repeatable() {
    for strategy in [
        Strategy::NamedPipe,
        Strategy::GroupContainer,
        Strategy::TemporaryDirectory,
        Strategy::CacheDirectory,
    ] {
        assert_eq!(path(strategy, "/Users/alice", "bw"), path(strategy, "/Users/alice", "bw"));
    }
}

#[test]
fn users_and_channels_do_not_collide() {
    for strategy in [
        Strategy::NamedPipe,
        Strategy::GroupContainer,
        Strategy::TemporaryDirectory,
        Strategy::CacheDirectory,
    ] {
        let alice = path(strategy, "/Users/alice", "bw").unwrap();
        let bob = path(strategy, "/Users/bob", "bw").unwrap();
        let other = path(strategy, "/Users/alice", "bw2").unwrap();
        assert_ne!(alice, bob);
        assert_ne!(alice, other);
    }
}

#[test]
fn pipe_endpoint_hashes_the_bytes_of_the_home_directory() {
    assert_eq!(
        pipe_endpoint(br"C:\Users\bob", "bitwarden"),
        r"\\.\pipe\hNhW_39MqgTPLo5uyvNt5kVWzjT9RdRVBFjhnRPiKyg.app.bitwarden"
    );
    assert_eq!(
        pipe_endpoint(br"C:\Users\bob", "bitwarden"),
        path(Strategy::NamedPipe, r"C:\Users\bob", "bitwarden").unwrap()
    );
}
