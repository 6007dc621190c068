//! End-to-end rendering over an in-memory provider: the documented
//! scenarios of the rendering engine.

use std::sync::Arc;

use konf_provider::authorizer::Authorizer;
use konf_provider::fs::{DirEntry, FileProvider};
use konf_provider::loader::MultiLoader;
use konf_provider::loaders::yaml::YamlLoader;
use konf_provider::render::{Dag, RenderError};
use konf_provider::render_helper::resolve_refs_from_deps;
use konf_provider::{Mapping, Value};

/// A provider over an in-memory list of documents.
struct MemProvider {
    docs: Vec<(String, String)>,
}

impl MemProvider {
    fn new(docs: &[(&str, &str)]) -> MemProvider {
        MemProvider {
            docs: docs
                .iter()
                .map(|(k, v)| (k.to_string(), v.to_string()))
                .collect(),
        }
    }
}

impl FileProvider for MemProvider {
    fn load(&self, path: &str) -> Option<String> {
        self.docs
            .iter()
            .find(|(k, _)| format!("{}.yaml", k) == path)
            .map(|(_, v)| v.clone())
    }

    fn list(&self) -> Vec<DirEntry> {
        self.docs
            .iter()
            .map(|(k, _)| DirEntry {
                filename: k.clone(),
                full_path: format!("{}.yaml", k),
                ext: "yaml".to_string(),
            })
            .collect()
    }
}

fn dag_of(docs: &[(&str, &str)]) -> Dag<MemProvider> {
    let loader = Arc::new(MultiLoader::new(vec![YamlLoader {}]));
    Dag::new(MemProvider::new(docs), loader).expect("reload cannot fail")
}

fn map_of(entries: Vec<(&str, Value)>) -> Mapping {
    entries
        .into_iter()
        .map(|(k, v)| (k.to_string(), v))
        .collect()
}

#[test]
fn test_alias_with_null_value() {
    let dag = dag_of(&[
        (
            "services/api",
            "<!>:\n  import:\n    common/db:\nhost: ${common/db.host}",
        ),
        ("common/db", "host: localhost\nport: 5432"),
    ]);
    let rendered = dag.get_rendered("services/api").unwrap();
    assert_eq!(
        rendered,
        Value::Mapping(map_of(vec![(
            "host",
            Value::String("localhost".to_string())
        )]))
    );
}

#[test]
fn test_alias_rebinding() {
    let dag = dag_of(&[
        (
            "services/api",
            "<!>:\n  import:\n    common/db: d\nhost: ${d.host}\nport: ${d.port}",
        ),
        ("common/db", "host: localhost\nport: 5432"),
    ]);
    let rendered = dag.get_rendered("services/api").unwrap();
    assert_eq!(
        rendered,
        Value::Mapping(map_of(vec![
            ("host", Value::String("localhost".to_string())),
            ("port", Value::Int(5432)),
        ]))
    );
}

#[test]
fn test_relative_import() {
    let dag = dag_of(&[
        (
            "services/api/config",
            "<!>:\n  import:\n    ../../common/db: d\nurl: \"postgres://${d.host}:${d.port}/app\"",
        ),
        ("common/db", "host: localhost\nport: 5432"),
    ]);
    let rendered = dag.get_rendered("services/api/config").unwrap();
    assert_eq!(
        rendered.get("url").unwrap(),
        &Value::String("postgres://localhost:5432/app".to_string())
    );
}

#[test]
fn test_function_pipeline() {
    let dag = dag_of(&[
        ("a", "raw: \"  HELLO  \""),
        ("b", "<!>:\n  import:\n    a:\nv: ${a.raw | trim | lower}"),
    ]);
    let rendered = dag.get_rendered("b").unwrap();
    assert_eq!(
        rendered.get("v").unwrap(),
        &Value::String("hello".to_string())
    );
}

#[test]
fn test_default_on_null() {
    let dag = dag_of(&[
        ("a", "x: null"),
        ("b", "<!>:\n  import:\n    a:\nv: ${a.x | default:\"fallback\"}"),
    ]);
    let rendered = dag.get_rendered("b").unwrap();
    assert_eq!(
        rendered.get("v").unwrap(),
        &Value::String("fallback".to_string())
    );
}

#[test]
fn test_self_import_rejection() {
    let dag = dag_of(&[("a", "<!>:\n  import:\n    a:\nv: 1")]);
    let result = dag.get_rendered("a");
    match result {
        Err(RenderError::Cycle { path }) => assert_eq!(path, "a"),
        other => panic!("expected a cycle error, got {:?}", other),
    }
}

#[test]
fn test_authorization_gate() {
    let loader = MultiLoader::new(vec![YamlLoader {}]);
    let doc = loader
        .load("yaml", "<!>:\n  auth:\n    - t1\n    - t2\nvalue: 42")
        .unwrap();
    let docs = vec![("secret".to_string(), doc)];
    let authorizer = Authorizer::from_files(&docs);
    assert!(authorizer.authorize("secret", "t1"));
    assert!(!authorizer.authorize("secret", "t3"));
    assert!(!authorizer.authorize("other", "t1"));
}

#[test]
fn test_authorizer_from_provider() {
    let provider = MemProvider::new(&[
        ("secret", "<!>:\n  auth:\n    - t1\nvalue: 42"),
        ("open", "value: 1"),
    ]);
    let loader = MultiLoader::new(vec![YamlLoader {}]);
    let authorizer = Authorizer::new(&provider, &loader);
    assert!(authorizer.authorize("secret", "t1"));
    assert!(!authorizer.authorize("secret", "t2"));
    assert!(!authorizer.authorize("open", "t1"));
}

#[test]
fn test_missing_document_error() {
    let dag = dag_of(&[("a", "v: 1")]);
    match dag.get_rendered("missing") {
        Err(RenderError::ConfigNotFound { path }) => assert_eq!(path, "missing"),
        other => panic!("expected a not-found error, got {:?}", other),
    }
}

#[test]
fn test_missing_import_error() {
    let dag = dag_of(&[("a", "<!>:\n  import:\n    ghost:\nv: ${ghost.x}")]);
    match dag.get_rendered("a") {
        Err(RenderError::ConfigNotFound { path }) => assert_eq!(path, "ghost"),
        other => panic!("expected a not-found error, got {:?}", other),
    }
}

#[test]
fn test_two_step_cycle() {
    let dag = dag_of(&[
        ("a", "<!>:\n  import:\n    b:\nv: ${b.v}"),
        ("b", "<!>:\n  import:\n    a:\nv: ${a.v}"),
    ]);
    match dag.get_rendered("a") {
        Err(RenderError::Cycle { .. }) => {}
        other => panic!("expected a cycle error, got {:?}", other),
    }
}

#[test]
fn test_lookup_miss_left_in_place() {
    let dag = dag_of(&[("a", "v: ${nowhere.x}\nw: pre ${nowhere.y} post")]);
    let rendered = dag.get_rendered("a").unwrap();
    assert_eq!(
        rendered.get("v").unwrap(),
        &Value::String("${nowhere.x}".to_string())
    );
    assert_eq!(
        rendered.get("w").unwrap(),
        &Value::String("pre ${nowhere.y} post".to_string())
    );
}

#[test]
fn test_exact_match_preserves_type() {
    let dag = dag_of(&[
        ("a", "port: 5432\nflag: true\nsection:\n  x: 1"),
        (
            "b",
            "<!>:\n  import:\n    a:\np: ${a.port}\nf: ${a.flag}\ns: ${a.section}",
        ),
    ]);
    let rendered = dag.get_rendered("b").unwrap();
    assert_eq!(rendered.get("p").unwrap(), &Value::Int(5432));
    assert_eq!(rendered.get("f").unwrap(), &Value::Boolean(true));
    assert_eq!(
        rendered.get("s").unwrap(),
        &Value::Mapping(map_of(vec![("x", Value::Int(1))]))
    );
}

#[test]
fn test_rendering_is_deterministic() {
    let dag = dag_of(&[
        ("a", "x: 1"),
        ("b", "<!>:\n  import:\n    a:\nv: ${a.x}"),
    ]);
    let first = dag.get_rendered("b").unwrap();
    let second = dag.get_rendered("b").unwrap();
    assert_eq!(first, second);
}

#[test]
fn test_get_raw_keeps_metadata() {
    let dag = dag_of(&[("a", "<!>:\n  import:\n    x:\nv: 1")]);
    let raw = dag.get_raw("a").unwrap();
    assert!(raw.get("<!>").is_some());
    assert!(dag.get_raw("zzz").is_err());
}

#[test]
fn test_reload_replaces_snapshot() {
    let loader = Arc::new(MultiLoader::new(vec![YamlLoader {}]));
    let mut dag = Dag::new(MemProvider::new(&[("a", "v: 1")]), loader).unwrap();
    assert_eq!(dag.get_rendered("a").unwrap().get("v").unwrap(), &Value::Int(1));
    dag.file_provider = MemProvider::new(&[("a", "v: 2")]);
    dag.reload().unwrap();
    assert_eq!(dag.get_rendered("a").unwrap().get("v").unwrap(), &Value::Int(2));
}

#[test]
fn test_key_collision_last_listed_wins() {
    let mut dag = Dag::new(
        MemProvider::new(&[("a", "v: 1")]),
        Arc::new(MultiLoader::new(vec![YamlLoader {}])),
    )
    .unwrap();
    let loader = MultiLoader::new(vec![YamlLoader {}]);
    let docs = vec![
        ("a".to_string(), loader.load("yaml", "v: 1").unwrap()),
        ("a".to_string(), loader.load("yaml", "v: 2").unwrap()),
    ];
    dag.reload_from_values(docs);
    assert_eq!(dag.get_rendered("a").unwrap().get("v").unwrap(), &Value::Int(2));
}

#[test]
fn test_unparseable_document_skipped() {
    let dag = dag_of(&[("bad", "{{not yaml"), ("good", "v: 1")]);
    assert!(dag.get_rendered("good").is_ok());
    assert!(matches!(
        dag.get_rendered("bad"),
        Err(RenderError::ConfigNotFound { .. })
    ));
}

#[test]
fn test_int_literal_default() {
    let dag = dag_of(&[
        ("a", "x: null"),
        ("b", "<!>:\n  import:\n    a:\nv: ${a.x | default:42}\nw: ${a.x | default:-7}"),
    ]);
    let rendered = dag.get_rendered("b").unwrap();
    assert_eq!(rendered.get("v").unwrap(), &Value::Int(42));
    assert_eq!(rendered.get("w").unwrap(), &Value::Int(-7));
}

#[test]
fn test_interpolation_stringifies_scalars() {
    let dag = dag_of(&[
        ("a", "i: -3\nb: false\nn: null\nf: 2.5"),
        (
            "b",
            "<!>:\n  import:\n    a:\nv: \"i=${a.i} b=${a.b} n=${a.n} f=${a.f}\"",
        ),
    ]);
    let rendered = dag.get_rendered("b").unwrap();
    assert_eq!(
        rendered.get("v").unwrap(),
        &Value::String("i=-3 b=false n=null f=2.5".to_string())
    );
}

#[test]
fn test_rendered_cache_agrees_with_render() {
    let mut dag = dag_of(&[
        ("a", "x: 7"),
        ("b", "<!>:\n  import:\n    a:\nv: ${a.x}"),
    ]);
    let plain = dag.get_rendered("b").unwrap();
    let first = dag.get_rendered_cached("b").unwrap();
    let second = dag.get_rendered_cached("b").unwrap();
    assert_eq!(plain, first);
    assert_eq!(first, second);
    assert!(dag.get_rendered_cached("zzz").is_err());
}

#[test]
fn test_resolver_idempotent_on_rendered_output() {
    let deps: Vec<(String, Value)> = vec![(
        "a".to_string(),
        Value::Mapping(map_of(vec![("host", Value::String("localhost".to_string()))])),
    )];
    let mut value = Value::Mapping(map_of(vec![(
        "url",
        Value::String("http://${a.host}/".to_string()),
    )]));
    resolve_refs_from_deps(&mut value, &deps);
    let once = value.clone();
    resolve_refs_from_deps(&mut value, &deps);
    assert_eq!(value, once);
}

#[test]
fn test_second_pass_not_idempotent_on_leftover_placeholder() {
    // A dependency can legitimately hold placeholder text (a miss left in
    // place).  An exact match copies it verbatim; resolving that output
    // again picks it up.  This is why the idempotence law speaks of outputs
    // that hold no placeholder.
    let deps: Vec<(String, Value)> = vec![(
        "a".to_string(),
        Value::Mapping(map_of(vec![
            ("v", Value::String("${a.w}".to_string())),
            ("w", Value::Int(1)),
        ])),
    )];
    let mut value = Value::String("${a.v}".to_string());
    resolve_refs_from_deps(&mut value, &deps);
    assert_eq!(value, Value::String("${a.w}".to_string()));
    resolve_refs_from_deps(&mut value, &deps);
    assert_eq!(value, Value::Int(1));
}

#[test]
fn test_int_literal_full_range() {
    let dag = dag_of(&[
        ("a", "x: null"),
        (
            "b",
            "<!>:\n  import:\n    a:\nhi: ${a.x | default:9223372036854775807}\nlo: ${a.x | default:-9223372036854775808}\nzeros: ${a.x | default:000042}\nbig: ${a.x | default:9999999999999999999}",
        ),
    ]);
    let rendered = dag.get_rendered("b").unwrap();
    assert_eq!(rendered.get("hi").unwrap(), &Value::Int(i64::MAX));
    assert_eq!(rendered.get("lo").unwrap(), &Value::Int(i64::MIN));
    assert_eq!(rendered.get("zeros").unwrap(), &Value::Int(42));
    // A literal beyond the signed range is a parse failure: the placeholder
    // stays as written.
    assert_eq!(
        rendered.get("big").unwrap(),
        &Value::String("${a.x | default:9999999999999999999}".to_string())
    );
}
