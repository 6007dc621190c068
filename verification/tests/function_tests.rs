//! The built-in template functions.

use konf_provider::functions::default::DefaultFn;
use konf_provider::functions::encoding::{Base64Decode, Base64Encode, UrlEscape};
use konf_provider::functions::string::{Lower, Trim, Upper};
use konf_provider::functions::{FunctionArg, FunctionRegistry};
use konf_provider::Value;

#[test]
fn test_trim() {
    let func = Trim {};
    assert_eq!(func.name(), "trim");

    // Normal case
    let result = func.execute(Value::String("  hello  ".to_string()), &[]);
    assert_eq!(result.unwrap(), Value::String("hello".to_string()));

    // Already trimmed
    let result = func.execute(Value::String("hello".to_string()), &[]);
    assert_eq!(result.unwrap(), Value::String("hello".to_string()));

    // Empty string
    let result = func.execute(Value::String("   ".to_string()), &[]);
    assert_eq!(result.unwrap(), Value::String("".to_string()));

    // Unsupported type
    let result = func.execute(Value::Int(42), &[]);
    assert!(result.is_err());
}

#[test]
fn test_upper() {
    let func = Upper {};
    assert_eq!(func.name(), "upper");

    let result = func.execute(Value::String("hello".to_string()), &[]);
    assert_eq!(result.unwrap(), Value::String("HELLO".to_string()));

    let result = func.execute(Value::String("Hello World".to_string()), &[]);
    assert_eq!(result.unwrap(), Value::String("HELLO WORLD".to_string()));

    // Unsupported type
    let result = func.execute(Value::Boolean(true), &[]);
    assert!(result.is_err());
}

#[test]
fn test_lower() {
    let func = Lower {};
    assert_eq!(func.name(), "lower");

    let result = func.execute(Value::String("HELLO".to_string()), &[]);
    assert_eq!(result.unwrap(), Value::String("hello".to_string()));

    let result = func.execute(Value::String("Hello World".to_string()), &[]);
    assert_eq!(result.unwrap(), Value::String("hello world".to_string()));

    // Unsupported type
    let result = func.execute(Value::Null, &[]);
    assert!(result.is_err());
}

#[test]
fn test_default_with_null() {
    let func = DefaultFn {};
    assert_eq!(func.name(), "default");

    // Null with string default
    let result = func.execute(Value::Null, &[FunctionArg::String("fallback".to_string())]);
    assert_eq!(result.unwrap(), Value::String("fallback".to_string()));

    // Null with int default
    let result = func.execute(Value::Null, &[FunctionArg::Int(42)]);
    assert_eq!(result.unwrap(), Value::Int(42));

    // Null with float default (floats carry their text)
    let result = func.execute(Value::Null, &[FunctionArg::Float("3.14".to_string())]);
    assert_eq!(result.unwrap(), Value::Float("3.14".to_string()));

    // Null with boolean default
    let result = func.execute(Value::Null, &[FunctionArg::Boolean(true)]);
    assert_eq!(result.unwrap(), Value::Boolean(true));
}

#[test]
fn test_default_with_non_null() {
    let func = DefaultFn {};

    // String value - default not applied
    let result = func.execute(
        Value::String("existing".to_string()),
        &[FunctionArg::String("fallback".to_string())],
    );
    assert_eq!(result.unwrap(), Value::String("existing".to_string()));

    // Int value - default not applied
    let result = func.execute(Value::Int(10), &[FunctionArg::Int(42)]);
    assert_eq!(result.unwrap(), Value::Int(10));

    // Boolean value - default not applied
    let result = func.execute(Value::Boolean(false), &[FunctionArg::Boolean(true)]);
    assert_eq!(result.unwrap(), Value::Boolean(false));
}

#[test]
fn test_default_missing_argument() {
    let func = DefaultFn {};

    let result = func.execute(Value::Null, &[]);
    assert!(result.is_err());
}

#[test]
fn test_base64_encode() {
    let func = Base64Encode {};
    assert_eq!(func.name(), "base64");

    let result = func.execute(Value::String("hello".to_string()), &[]);
    assert_eq!(result.unwrap(), Value::String("aGVsbG8=".to_string()));

    let result = func.execute(Value::String("hello world".to_string()), &[]);
    assert_eq!(result.unwrap(), Value::String("aGVsbG8gd29ybGQ=".to_string()));

    // Unsupported type
    let result = func.execute(Value::Int(42), &[]);
    assert!(result.is_err());
}

#[test]
fn test_base64_decode() {
    let func = Base64Decode {};
    assert_eq!(func.name(), "base64_decode");

    let result = func.execute(Value::String("aGVsbG8=".to_string()), &[]);
    assert_eq!(result.unwrap(), Value::String("hello".to_string()));

    let result = func.execute(Value::String("aGVsbG8gd29ybGQ=".to_string()), &[]);
    assert_eq!(result.unwrap(), Value::String("hello world".to_string()));

    // Invalid base64
    let result = func.execute(Value::String("not valid base64!!!".to_string()), &[]);
    assert!(result.is_err());

    // Unsupported type
    let result = func.execute(Value::Boolean(true), &[]);
    assert!(result.is_err());
}

#[test]
fn test_url_escape() {
    let func = UrlEscape {};
    assert_eq!(func.name(), "url_escape");

    let result = func.execute(Value::String("hello world".to_string()), &[]);
    assert_eq!(result.unwrap(), Value::String("hello%20world".to_string()));

    let result = func.execute(Value::String("a=b&c=d".to_string()), &[]);
    assert_eq!(result.unwrap(), Value::String("a%3Db%26c%3Dd".to_string()));

    // No encoding needed
    let result = func.execute(Value::String("hello".to_string()), &[]);
    assert_eq!(result.unwrap(), Value::String("hello".to_string()));

    // Unsupported type
    let result = func.execute(Value::Null, &[]);
    assert!(result.is_err());
}

#[test]
fn test_registry_dispatch_and_unknown() {
    let registry = FunctionRegistry::new();
    let r = registry.execute("trim", Value::String(" x ".to_string()), &[]);
    assert_eq!(r.unwrap(), Value::String("x".to_string()));
    let r = registry.execute("nonsense", Value::Null, &[]);
    assert!(r.is_err());
}

#[test]
fn test_registry_builtins_present() {
    let registry = FunctionRegistry::new();
    for name in [
        "trim",
        "upper",
        "lower",
        "base64",
        "base64_decode",
        "url_escape",
        "default",
    ] {
        assert!(registry.get(name).is_some());
        assert_eq!(registry.get(name), Some(name));
    }
    assert!(registry.get("nonsense").is_none());
}

#[test]
fn test_base64_round_trip() {
    let enc = Base64Encode {};
    let dec = Base64Decode {};
    for text in ["hello", "", "with spaces and / symbols +", "caf\u{e9} \u{2713}"] {
        let encoded = enc.execute(Value::String(text.to_string()), &[]).unwrap();
        let decoded = dec.execute(encoded, &[]).unwrap();
        assert_eq!(decoded, Value::String(text.to_string()));
    }
}
