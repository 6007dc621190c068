//! The pure parts of the git-backed store.

use konf_provider::fs::git::{git_cache_dir_name, is_valid_commit_hash, is_valid_git_url, Creds};

#[test]
fn test_commit_hash_validation() {
    // Valid full hashes (40 chars)
    assert!(is_valid_commit_hash("a1b2c3d4e5f6a1b2c3d4e5f6a1b2c3d4e5f6a1b2"));
    assert!(is_valid_commit_hash("0123456789abcdef0123456789abcdef01234567"));

    // Valid short hashes (7+ chars)
    assert!(is_valid_commit_hash("a1b2c3d"));
    assert!(is_valid_commit_hash("0123456789"));

    // Invalid: too short
    assert!(!is_valid_commit_hash("a1b2c3"));
    assert!(!is_valid_commit_hash("abc"));

    // Invalid: too long
    assert!(!is_valid_commit_hash("a1b2c3d4e5f6a1b2c3d4e5f6a1b2c3d4e5f6a1b2c"));

    // Invalid: non-hex characters
    assert!(!is_valid_commit_hash("g1b2c3d4e5f6a1b2c3d4e5f6a1b2c3d4e5f6a1b2"));
    assert!(!is_valid_commit_hash("hello-world"));

    // Invalid: empty
    assert!(!is_valid_commit_hash(""));
}

#[test]
fn test_git_url_validation() {
    // Valid HTTPS URLs
    assert!(is_valid_git_url("https://github.com/user/repo.git"));
    assert!(is_valid_git_url("https://gitlab.com/user/repo"));
    assert!(is_valid_git_url("https://git.example.com/path/to/repo.git"));

    // Valid HTTP URLs
    assert!(is_valid_git_url("http://github.com/user/repo.git"));

    // Valid git:// URLs
    assert!(is_valid_git_url("git://github.com/user/repo.git"));

    // Valid SSH URLs
    assert!(is_valid_git_url("ssh://git@github.com/user/repo.git"));
    assert!(is_valid_git_url("git@github.com:user/repo.git"));
    assert!(is_valid_git_url("git@gitlab.example.com:group/project.git"));

    // Invalid URLs
    assert!(!is_valid_git_url("ftp://example.com/repo.git"));
    assert!(!is_valid_git_url("file:///path/to/repo"));
    assert!(!is_valid_git_url("/local/path/to/repo"));
    assert!(!is_valid_git_url(""));
    assert!(!is_valid_git_url("not a url"));
}

#[test]
fn test_git_directory_is_deterministic() {
    let url = "https://github.com/example/repo.git";
    let dir1 = git_cache_dir_name(url);
    let dir2 = git_cache_dir_name(url);
    assert_eq!(dir1, dir2, "Same URL should produce same directory");

    let different_url = "https://github.com/example/other-repo.git";
    let dir3 = git_cache_dir_name(different_url);
    assert_ne!(dir1, dir3, "Different URLs should produce different directories");
}

#[test]
fn test_git_directory_is_hex_digest() {
    let name = git_cache_dir_name("https://github.com/example/repo.git");
    assert_eq!(name.len(), 64);
    assert!(name.chars().all(|c| c.is_ascii_hexdigit()));
    // The digest of the URL, not the URL itself.
    assert!(!name.contains("github"));
}

#[test]
fn test_creds_carry_fields() {
    let creds = Creds::new("user".to_string(), "SECRET-REDACTED".to_string());
    assert_eq!(creds.username, "user");
    assert_eq!(creds.password, "SECRET-REDACTED");
}

#[test]
fn test_commit_known_membership() {
    let commits = vec![
        "a1b2c3d4e5f6a1b2c3d4e5f6a1b2c3d4e5f6a1b2".to_string(),
        "0123456789abcdef0123456789abcdef01234567".to_string(),
    ];
    assert!(konf_provider::fs::git::commit_known(
        &commits,
        "0123456789abcdef0123456789abcdef01234567"
    ));
    assert!(!konf_provider::fs::git::commit_known(&commits, "ffffffff"));
    assert!(!konf_provider::fs::git::commit_known(&Vec::new(), "a1b2c3d"));
}
