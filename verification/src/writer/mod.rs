//! The output writers, one per wire format.

pub mod docker_env;
pub mod env;
pub mod json;
pub mod properties;
pub mod toml;
pub mod yaml;

use crate::Value;
use vstd::prelude::*;

verus! {

/// An error from serializing a value, tagged with the format.
#[derive(Debug)]
pub struct WriterError {
    pub format: &'static str,
    pub message: String,
}

/// The writer suite, dispatching on a format tag.  It serves `yaml`,
/// `json`, `toml`, `env`, `docker-env` and `properties`.
#[derive(Debug)]
pub struct MultiWriter {}

impl MultiWriter {
    /// The suite of all six writers.
    pub fn new() -> (r: MultiWriter) {
        MultiWriter {  }
    }

    /// Serializes `content` in the named format; `None` on an unknown tag.
    pub fn write(&self, ext: &str, content: &Value) -> (r: Option<Result<String, WriterError>>)
        ensures
            r is None <==> !(ext@ == "yaml"@ || ext@ == "json"@ || ext@ == "toml"@ || ext@
                == "env"@ || ext@ == "docker-env"@ || ext@ == "properties"@),
            ext@ == "json"@ ==> (r matches Some(inner) && inner matches Ok(s) && s@
                == json::json_text_of(json::spec_to_json(content@))),
            ext@ == "yaml"@ ==> (r matches Some(inner) && inner matches Ok(s) && s@
                == yaml::yaml_text_of(json::spec_to_json(content@))),
            ext@ == "toml"@ ==> (r matches Some(inner) && (match inner {
                Ok(s) => toml::toml_text_of(json::spec_to_json(toml::spec_toml_ready(content@)))
                    == Some(s@),
                Err(e) => e.format@ == "toml"@,
            })),
            ext@ == "env"@ ==> (r matches Some(inner) && inner matches Ok(s) && s@
                == env::env_text(content@)),
            ext@ == "docker-env"@ ==> (r matches Some(inner) && inner matches Ok(s) && s@
                == docker_env::docker_env_text(content@)),
            ext@ == "properties"@ ==> (r matches Some(inner) && inner matches Ok(s) && s@
                == properties::properties_text(content@)),
    {
        proof {
            reveal_strlit("yaml");
            reveal_strlit("json");
            reveal_strlit("toml");
            reveal_strlit("env");
            reveal_strlit("docker-env");
            reveal_strlit("properties");
            assert("yaml"@ =~= seq!['y', 'a', 'm', 'l']);
            assert("json"@ =~= seq!['j', 's', 'o', 'n']);
            assert("toml"@ =~= seq!['t', 'o', 'm', 'l']);
            assert("env"@ =~= seq!['e', 'n', 'v']);
            assert("docker-env"@ =~= seq!['d', 'o', 'c', 'k', 'e', 'r', '-', 'e', 'n', 'v']);
            assert("properties"@ =~= seq!['p', 'r', 'o', 'p', 'e', 'r', 't', 'i', 'e', 's']);
        }
        if crate::strutil::str_eq(ext, "yaml") {
            Some(yaml::YamlWriter {  }.to_str(content))
        } else if crate::strutil::str_eq(ext, "json") {
            Some(json::JsonWriter {  }.to_str(content))
        } else if crate::strutil::str_eq(ext, "toml") {
            Some(toml::TomlWriter {  }.to_str(content))
        } else if crate::strutil::str_eq(ext, "env") {
            Some(env::EnvVarWriter {  }.to_str(content))
        } else if crate::strutil::str_eq(ext, "docker-env") {
            Some(docker_env::DockerEnvVarWriter {  }.to_str(content))
        } else if crate::strutil::str_eq(ext, "properties") {
            Some(properties::PropertiesWriter {  }.to_str(content))
        } else {
            None
        }
    }
}

} // verus!
