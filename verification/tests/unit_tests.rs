//! Values, loaders and writers.

use konf_provider::loader::MultiLoader;
use konf_provider::loaders::yaml::YamlLoader;
use konf_provider::writer::docker_env::DockerEnvVarWriter;
use konf_provider::writer::env::EnvVarWriter;
use konf_provider::writer::json::JsonWriter;
use konf_provider::writer::properties::PropertiesWriter;
use konf_provider::writer::toml::TomlWriter;
use konf_provider::writer::yaml::YamlWriter;
use konf_provider::{Mapping, Value};

fn map_of(entries: Vec<(&str, Value)>) -> Mapping {
    entries
        .into_iter()
        .map(|(k, v)| (k.to_string(), v))
        .collect()
}

// ============================================================================
// Value tests
// ============================================================================

#[test]
fn test_value_get_mapping() {
    let map = map_of(vec![("key", Value::String("value".to_string()))]);
    let value = Value::Mapping(map);

    assert!(value.get("key").is_some());
    assert_eq!(value.get("key").unwrap().as_str(), Some(&"value".to_string()));
    assert!(value.get("nonexistent").is_none());
}

#[test]
fn test_value_get_non_mapping() {
    let value = Value::String("test".to_string());
    assert!(value.get("key").is_none());
}

#[test]
fn test_value_as_sequence() {
    let seq = vec![Value::String("a".to_string()), Value::String("b".to_string())];
    let value = Value::Sequence(seq);

    let result = value.as_sequence();
    assert!(result.is_some());
    assert_eq!(result.unwrap().len(), 2);
}

#[test]
fn test_value_as_str() {
    let value = Value::String("test".to_string());
    assert_eq!(value.as_str(), Some(&"test".to_string()));

    let value = Value::Int(42);
    assert_eq!(value.as_str(), None);
}

// ============================================================================
// Loader tests
// ============================================================================

#[test]
fn test_yaml_loader_simple() {
    let loader = YamlLoader {};
    assert_eq!(loader.ext(), "yaml");

    let yaml = "\nkey: value\nnumber: 42\nboolean: true\n";

    let result = loader.load(yaml);
    assert!(result.is_ok());

    let value = result.unwrap();
    assert!(value.get("key").is_some());
    assert_eq!(value.get("key").unwrap().as_str(), Some(&"value".to_string()));
    assert_eq!(value.get("number"), Some(&Value::Int(42)));
    assert_eq!(value.get("boolean"), Some(&Value::Boolean(true)));
}

#[test]
fn test_yaml_loader_nested() {
    let loader = YamlLoader {};

    let yaml = "\nparent:\n  child:\n    nested: value\n";

    let result = loader.load(yaml);
    assert!(result.is_ok());

    let value = result.unwrap();
    let parent = value.get("parent").unwrap();
    let child = parent.get("child").unwrap();
    assert_eq!(child.get("nested").unwrap().as_str(), Some(&"value".to_string()));
}

#[test]
fn test_yaml_loader_array() {
    let loader = YamlLoader {};

    let yaml = "\nitems:\n  - first\n  - second\n  - third\n";

    let result = loader.load(yaml);
    assert!(result.is_ok());

    let value = result.unwrap();
    let items = value.get("items").unwrap().as_sequence().unwrap();
    assert_eq!(items.len(), 3);
}

#[test]
fn test_yaml_loader_invalid() {
    let loader = YamlLoader {};

    let invalid_yaml = "{{invalid: yaml";
    let result = loader.load(invalid_yaml);
    assert!(result.is_err());
}

#[test]
fn test_yaml_loader_float_keeps_text() {
    let loader = YamlLoader {};
    let value = loader.load("pi: 3.25\n").unwrap();
    assert_eq!(value.get("pi"), Some(&Value::Float("3.25".to_string())));
}

#[test]
fn test_multi_loader() {
    let loader = MultiLoader::new(vec![YamlLoader {}]);

    // Should work with yaml extension
    let result = loader.load("yaml", "key: value");
    assert!(result.is_ok());

    // Should fail with unknown extension
    let result = loader.load("unknown", "key: value");
    assert!(result.is_err());
}

// ============================================================================
// Writer tests
// ============================================================================

fn sample_value() -> Value {
    let inner = map_of(vec![("nested", Value::String("value".to_string()))]);

    let map = map_of(vec![
        ("string", Value::String("hello".to_string())),
        ("number", Value::Int(42)),
        ("boolean", Value::Boolean(true)),
        ("null", Value::Null),
        ("object", Value::Mapping(inner)),
        (
            "array",
            Value::Sequence(vec![
                Value::String("a".to_string()),
                Value::String("b".to_string()),
            ]),
        ),
    ]);

    Value::Mapping(map)
}

#[test]
fn test_json_writer() {
    let writer = JsonWriter {};
    assert_eq!(writer.ext(), "json");

    let value = sample_value();
    let result = writer.to_str(&value);
    assert!(result.is_ok());

    let json_str = result.unwrap();
    assert!(json_str.contains("\"string\":\"hello\"") || json_str.contains("\"string\": \"hello\""));
}

#[test]
fn test_yaml_writer() {
    let writer = YamlWriter {};
    assert_eq!(writer.ext(), "yaml");

    let value = sample_value();
    let result = writer.to_str(&value);
    assert!(result.is_ok());

    let yaml_str = result.unwrap();
    assert!(yaml_str.contains("string: hello") || yaml_str.contains("string: 'hello'"));
}

#[test]
fn test_toml_writer() {
    let writer = TomlWriter {};
    assert_eq!(writer.ext(), "toml");

    let value = sample_value();
    let result = writer.to_str(&value);
    assert!(result.is_ok());
}

#[test]
fn test_env_writer() {
    let writer = EnvVarWriter {};
    assert_eq!(writer.ext(), "env");

    let map = map_of(vec![
        (
            "database_url",
            Value::String("postgres://localhost".to_string()),
        ),
        ("port", Value::Int(8080)),
    ]);

    let value = Value::Mapping(map);
    let result = writer.to_str(&value);
    assert!(result.is_ok());

    let env_str = result.unwrap();
    assert!(env_str.contains("DATABASE_URL=\"postgres://localhost\""));
    assert!(env_str.contains("PORT=8080"));
}

#[test]
fn test_docker_env_writer() {
    let writer = DockerEnvVarWriter {};
    assert_eq!(writer.ext(), "docker-env");

    let map = map_of(vec![("key", Value::String("value".to_string()))]);

    let value = Value::Mapping(map);
    let result = writer.to_str(&value);
    assert!(result.is_ok());

    let env_str = result.unwrap();
    // Docker env format doesn't quote string values
    assert!(env_str.contains("KEY=value"));
}

#[test]
fn test_properties_writer() {
    let writer = PropertiesWriter {};
    assert_eq!(writer.ext(), "properties");

    let map = map_of(vec![
        ("app.name", Value::String("myapp".to_string())),
        ("app.version", Value::Int(1)),
    ]);

    let value = Value::Mapping(map);
    let result = writer.to_str(&value);
    assert!(result.is_ok());
}

#[test]
fn test_properties_writer_exact_output() {
    let writer = PropertiesWriter {};
    let value = Value::Mapping(map_of(vec![
        ("name", Value::String("app".to_string())),
        (
            "db",
            Value::Mapping(map_of(vec![("port", Value::Int(5432)), ("pass", Value::Null)])),
        ),
        (
            "hosts",
            Value::Sequence(vec![Value::String("a".to_string()), Value::Boolean(true)]),
        ),
    ]));
    let text = writer.to_str(&value).unwrap();
    assert_eq!(
        text,
        "name=\"app\"\ndb.port=5432\ndb.pass=\nhosts[0]=\"a\"\nhosts[1]=true\n"
    );
}

#[test]
fn test_env_writer_exact_output() {
    let writer = EnvVarWriter {};
    let value = Value::Mapping(map_of(vec![
        ("name", Value::String("app".to_string())),
        ("db", Value::Mapping(map_of(vec![("port", Value::Int(5432))]))),
        ("flags", Value::Sequence(vec![Value::Null])),
    ]));
    let text = writer.to_str(&value).unwrap();
    assert_eq!(text, "NAME=\"app\"\nDB_PORT=5432\nFLAGS_0=\"\"");
}

#[test]
fn test_multi_writer_dispatch() {
    let writer = konf_provider::writer::MultiWriter::new();
    let value = Value::Mapping(map_of(vec![("k", Value::Int(1))]));
    assert!(writer.write("json", &value).is_some());
    assert!(writer.write("yaml", &value).is_some());
    assert!(writer.write("toml", &value).is_some());
    assert!(writer.write("env", &value).is_some());
    assert!(writer.write("docker-env", &value).is_some());
    assert!(writer.write("properties", &value).is_some());
    assert!(writer.write("xml", &value).is_none());
}

// ============================================================================
// Round-trip tests (load -> write -> load)
// ============================================================================

#[test]
fn test_yaml_roundtrip() {
    let loader = YamlLoader {};
    let writer = YamlWriter {};

    let original = "\nkey: value\nnested:\n  inner: data\n";

    // Load
    let value = loader.load(original).unwrap();

    // Write
    let written = writer.to_str(&value).unwrap();

    // Load again
    let reloaded = loader.load(&written).unwrap();

    // Compare
    assert_eq!(
        value.get("key").unwrap().as_str(),
        reloaded.get("key").unwrap().as_str()
    );
}
