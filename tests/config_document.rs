use lambda_router::config::{rewrite_overrides, ConfigEntry, ConfigError, ConfigNode};
use lambda_router::placeholder::{EnvTable, EnvVar};

fn text(s: &str) -> ConfigNode {
    ConfigNode::Text(s.to_string())
}

fn entry(k: &str, v: ConfigNode) -> ConfigEntry {
    ConfigEntry { key: text(k), value: v }
}

fn env(pairs: &[(&str, &str)]) -> EnvTable {
    EnvTable {
        vars: pairs
            .iter()
            .map(|(n, v)| EnvVar { name: n.to_string(), value: v.to_string() })
            .collect(),
    }
}

fn document(section: Vec<ConfigEntry>) -> ConfigNode {
    ConfigNode::Mapping(vec![
        entry("supergraph", ConfigNode::Mapping(vec![entry("listen", text("${env.LISTEN:-0.0.0.0:4000}"))])),
        entry("override_subgraph_url", ConfigNode::Mapping(section)),
        entry("headers", text("${env.TOKEN}")),
    ])
}

#[test]
fn override_values_are_rewritten_and_expanded() {
    let doc = document(vec![
        entry("users", text("${env.USERS_URL:-http://127.0.0.1:3065/}")),
        entry("posts", text("${env.POSTS_URL:-http://127.0.0.1:3066/}")),
    ]);
    let out = rewrite_overrides(doc, &env(&[("POSTS_URL", "http://posts/")])).unwrap();
    let expected = document(vec![
        entry("users", text("http://127.0.0.1:3065/")),
        entry("posts", text("http://posts/")),
    ]);
    assert_eq!(out, expected);
}

#[test]
fn placeholders_outside_the_section_are_passed_through() {
    let doc = document(vec![entry("users", text("${env.USERS_URL:-http://u/}"))]);
    let out = rewrite_overrides(doc, &env(&[("LISTEN", "1.2.3.4:1"), ("TOKEN", "t")])).unwrap();
    match out {
        ConfigNode::Mapping(es) => {
            assert_eq!(es[0], entry("supergraph", ConfigNode::Mapping(vec![entry("listen", text("${env.LISTEN:-0.0.0.0:4000}"))])));
            assert_eq!(es[2], entry("headers", text("${env.TOKEN}")));
            assert_eq!(es[1], entry("override_subgraph_url", ConfigNode::Mapping(vec![entry("users", text("http://u/"))])));
        }
        _ => panic!("expected a mapping"),
    }
}

#[test]
fn section_without_placeholders_is_identical() {
    let make = || {
        document(vec![
            entry("users", text("http://users:4001/")),
            entry("port", ConfigNode::Number("4001".to_string())),
        ])
    };
    let out = rewrite_overrides(make(), &env(&[("USERS_URL", "x")])).unwrap();
    assert_eq!(out, make());
}

#[test]
fn unset_variable_without_fallback_fails() {
    let doc = document(vec![
        entry("users", text("http://ok/")),
        entry("posts", text("${env.POSTS_URL}")),
    ]);
    assert_eq!(rewrite_overrides(doc, &env(&[])), Err(ConfigError::EnvExpansionError));
}

#[test]
fn document_without_section_is_unchanged() {
    let make = || ConfigNode::Mapping(vec![entry("headers", text("${env.TOKEN}"))]);
    assert_eq!(rewrite_overrides(make(), &env(&[])), Ok(make()));
    assert_eq!(rewrite_overrides(ConfigNode::Null, &env(&[])), Ok(ConfigNode::Null));
}

#[test]
fn section_that_is_not_a_mapping_is_unchanged() {
    let make = || ConfigNode::Mapping(vec![entry("override_subgraph_url", text("${env.X}"))]);
    assert_eq!(rewrite_overrides(make(), &env(&[])), Ok(make()));
}

#[test]
fn non_text_values_in_the_section_are_kept() {
    let make = |v: ConfigNode| document(vec![entry("flag", v)]);
    let out = rewrite_overrides(make(ConfigNode::Bool(true)), &env(&[])).unwrap();
    assert_eq!(out, make(ConfigNode::Bool(true)));
}
