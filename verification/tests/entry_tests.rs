//! Directory entries and the path-to-key rules.

use konf_provider::fs::DirEntry;
use konf_provider::utils::GetError;

#[test]
fn test_from_relative_path_strips_extension() {
    let e = DirEntry::from_relative_path("common/base.yaml", "/cfg/common/base.yaml").unwrap();
    assert_eq!(e.filename, "common/base");
    assert_eq!(e.ext, "yaml");
    assert_eq!(e.full_path, "/cfg/common/base.yaml");
}

#[test]
fn test_from_relative_path_no_extension() {
    let e = DirEntry::from_relative_path("common/base", "x").unwrap();
    assert_eq!(e.filename, "common/base");
    assert_eq!(e.ext, "");
}

#[test]
fn test_from_relative_path_hidden_file() {
    let e = DirEntry::from_relative_path(".konf", "x").unwrap();
    assert_eq!(e.filename, ".konf");
    assert_eq!(e.ext, "");
}

#[test]
fn test_from_relative_path_backslashes_normalized() {
    let e = DirEntry::from_relative_path("common\\base.yaml", "x").unwrap();
    assert_eq!(e.filename, "common/base");
}

#[test]
fn test_from_relative_path_empty() {
    assert!(DirEntry::from_relative_path("", "x").is_none());
}

#[test]
fn test_get_error_messages_name_the_key() {
    let e = GetError::ConfigNotFound {
        path: "common/db".to_string(),
    };
    assert_eq!(e.message(), "config file not found: 'common/db'");
    let e = GetError::Forbidden {
        path: "secret".to_string(),
    };
    assert_eq!(e.message(), "forbidden: not authorized to access 'secret'");
    let e = GetError::CommitNotFound {
        commit: "abc1234".to_string(),
    };
    assert_eq!(e.message(), "commit not found: 'abc1234'");
}
