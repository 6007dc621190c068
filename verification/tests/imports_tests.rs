//! Import parsing and relative-path resolution.

use konf_provider::imports::{parse_imports, resolve_relative_path};
use konf_provider::{Mapping, Value};

fn make_mapping(entries: Vec<(&str, Value)>) -> Mapping {
    entries
        .into_iter()
        .map(|(k, v)| (k.to_string(), v))
        .collect()
}

#[test]
fn test_resolve_relative_path_no_change() {
    assert_eq!(
        resolve_relative_path("services/api", "common/database"),
        "common/database"
    );
}

#[test]
fn test_resolve_relative_path_parent() {
    assert_eq!(
        resolve_relative_path("services/api", "../common/database"),
        "common/database"
    );
}

#[test]
fn test_resolve_relative_path_current() {
    assert_eq!(
        resolve_relative_path("services/api", "./config"),
        "services/config"
    );
}

#[test]
fn test_resolve_relative_path_multiple_parents() {
    assert_eq!(
        resolve_relative_path("services/api/v1", "../../common/database"),
        "common/database"
    );
}

#[test]
fn test_resolve_relative_path_from_root() {
    assert_eq!(
        resolve_relative_path("api", "../common/database"),
        "common/database"
    );
}

#[test]
fn test_parse_imports_null_alias() {
    // When alias value is null, the path should be used as the alias
    let value = Value::Mapping(make_mapping(vec![(
        "<!>",
        Value::Mapping(make_mapping(vec![(
            "import",
            Value::Mapping(make_mapping(vec![
                ("common/database", Value::Null),
                ("common/redis", Value::Null),
            ])),
        )])),
    )]));

    let imports = parse_imports(&value, "services/api");

    assert_eq!(imports.len(), 2);

    let db_import = imports.get("common/database").unwrap();
    assert_eq!(db_import.path, "common/database");
    assert_eq!(db_import.alias, "common/database");
    assert_eq!(db_import.resolved_path, Some("common/database".to_string()));

    let redis_import = imports.get("common/redis").unwrap();
    assert_eq!(redis_import.path, "common/redis");
    assert_eq!(redis_import.alias, "common/redis");
    assert_eq!(redis_import.resolved_path, Some("common/redis".to_string()));
}

#[test]
fn test_parse_imports_new_format() {
    let value = Value::Mapping(make_mapping(vec![(
        "<!>",
        Value::Mapping(make_mapping(vec![(
            "import",
            Value::Mapping(make_mapping(vec![
                ("common/database", Value::String("db".to_string())),
                ("common/redis", Value::String("cache".to_string())),
            ])),
        )])),
    )]));

    let imports = parse_imports(&value, "services/api");

    assert_eq!(imports.len(), 2);

    let db_import = imports.get("db").unwrap();
    assert_eq!(db_import.path, "common/database");
    assert_eq!(db_import.alias, "db");
    assert_eq!(db_import.resolved_path, Some("common/database".to_string()));

    let cache_import = imports.get("cache").unwrap();
    assert_eq!(cache_import.path, "common/redis");
    assert_eq!(cache_import.alias, "cache");
    assert_eq!(cache_import.resolved_path, Some("common/redis".to_string()));
}

#[test]
fn test_parse_imports_new_format_with_relative_paths() {
    let value = Value::Mapping(make_mapping(vec![(
        "<!>",
        Value::Mapping(make_mapping(vec![(
            "import",
            Value::Mapping(make_mapping(vec![
                ("../common/database", Value::String("db".to_string())),
                ("./config", Value::String("cfg".to_string())),
            ])),
        )])),
    )]));

    let imports = parse_imports(&value, "services/api");

    assert_eq!(imports.len(), 2);

    let db_import = imports.get("db").unwrap();
    assert_eq!(db_import.path, "../common/database");
    assert_eq!(db_import.resolved_path, Some("common/database".to_string()));

    let cfg_import = imports.get("cfg").unwrap();
    assert_eq!(cfg_import.path, "./config");
    assert_eq!(cfg_import.resolved_path, Some("services/config".to_string()));
}

#[test]
fn test_parse_imports_empty() {
    let value = Value::Mapping(make_mapping(vec![]));
    let imports = parse_imports(&value, "services/api");
    assert!(imports.is_empty());
}

#[test]
fn test_parse_imports_no_metadata() {
    let value = Value::Mapping(make_mapping(vec![(
        "service",
        Value::String("api".to_string()),
    )]));
    let imports = parse_imports(&value, "services/api");
    assert!(imports.is_empty());
}

#[test]
fn test_get_import_paths() {
    let value = Value::Mapping(make_mapping(vec![(
        "<!>",
        Value::Mapping(make_mapping(vec![(
            "import",
            Value::Mapping(make_mapping(vec![
                ("../common/database", Value::String("db".to_string())),
                ("common/redis", Value::String("cache".to_string())),
            ])),
        )])),
    )]));

    let paths = konf_provider::imports::get_import_paths(&value, "services/api");

    assert_eq!(paths.len(), 2);
    assert!(paths.contains(&"common/database".to_string()));
    assert!(paths.contains(&"common/redis".to_string()));
}

#[test]
fn test_parse_imports_alias_collision_last_wins() {
    let value = Value::Mapping(make_mapping(vec![(
        "<!>",
        Value::Mapping(make_mapping(vec![(
            "import",
            Value::Mapping(make_mapping(vec![
                ("common/database", Value::String("d".to_string())),
                ("common/redis", Value::String("d".to_string())),
            ])),
        )])),
    )]));

    let imports = parse_imports(&value, "services/api");
    assert_eq!(imports.len(), 1);
    let winner = imports.get("d").unwrap();
    assert_eq!(winner.path, "common/redis");
}

#[test]
fn test_parse_metadata_reads_auth() {
    let value = Value::Mapping(make_mapping(vec![(
        "<!>",
        Value::Mapping(make_mapping(vec![(
            "auth",
            Value::Sequence(vec![
                Value::String("t1".to_string()),
                Value::String("t2".to_string()),
            ]),
        )])),
    )]));
    let meta = konf_provider::imports::parse_metadata(&value, "secret");
    assert_eq!(meta.auth, vec!["t1".to_string(), "t2".to_string()]);
    assert!(meta.imports.is_empty());
}

#[test]
fn test_get_imports_paths_as_written() {
    let value = Value::Mapping(make_mapping(vec![(
        "<!>",
        Value::Mapping(make_mapping(vec![(
            "import",
            Value::Mapping(make_mapping(vec![
                ("../common/database", Value::String("db".to_string())),
                ("common/redis", Value::Null),
            ])),
        )])),
    )]));
    let paths = konf_provider::render_helper::get_imports(&value);
    assert_eq!(paths, vec!["../common/database".to_string(), "common/redis".to_string()]);
}

#[test]
fn test_strip_metadata_entry_removes_marker() {
    let value = Value::Mapping(make_mapping(vec![
        ("<!>", Value::Mapping(make_mapping(vec![]))),
        ("v", Value::Int(1)),
    ]));
    let stripped = konf_provider::render_helper::strip_metadata_entry(value);
    assert_eq!(stripped, Value::Mapping(make_mapping(vec![("v", Value::Int(1))])));
}
