use lambda_router::config::ConfigError;
use lambda_router::placeholder::{expand_placeholders, has_dollar, rewrite_vendor_syntax, EnvTable, EnvVar};

fn env(pairs: &[(&str, &str)]) -> EnvTable {
    EnvTable {
        vars: pairs
            .iter()
            .map(|(n, v)| EnvVar { name: n.to_string(), value: v.to_string() })
            .collect(),
    }
}

#[test]
fn rewrite_turns_vendor_opener_into_canonical() {
    assert_eq!(rewrite_vendor_syntax("${env.USERS_URL:-http://127.0.0.1:3065/}"), "${USERS_URL:-http://127.0.0.1:3065/}");
    assert_eq!(rewrite_vendor_syntax("a${env.X}b${env.Y}"), "a${X}b${Y}");
}

#[test]
fn rewrite_leaves_canonical_and_plain_text() {
    assert_eq!(rewrite_vendor_syntax("${X:-d}"), "${X:-d}");
    assert_eq!(rewrite_vendor_syntax("http://localhost:4000/"), "http://localhost:4000/");
    assert_eq!(rewrite_vendor_syntax(""), "");
    assert_eq!(rewrite_vendor_syntax("${env"), "${env");
}

#[test]
fn rewrite_is_one_pass() {
    assert_eq!(rewrite_vendor_syntax("${env.env.X}"), "${env.X}");
    assert_eq!(rewrite_vendor_syntax("$${env.X}"), "$${X}");
}

#[test]
fn vendor_placeholder_uses_set_variable() {
    let e = env(&[("SUBGRAPH_URL", "http://users:4001/")]);
    assert_eq!(
        expand_placeholders("${env.SUBGRAPH_URL:-http://127.0.0.1:3065/}", &e),
        Ok("http://users:4001/".to_string())
    );
}

#[test]
fn vendor_placeholder_falls_back_when_unset() {
    let e = env(&[("OTHER", "x")]);
    assert_eq!(
        expand_placeholders("${env.SUBGRAPH_URL:-http://127.0.0.1:3065/}", &e),
        Ok("http://127.0.0.1:3065/".to_string())
    );
}

#[test]
fn vendor_placeholder_without_fallback_fails_when_unset() {
    let e = env(&[]);
    assert_eq!(expand_placeholders("${env.SUBGRAPH_URL}", &e), Err(ConfigError::EnvExpansionError));
}

#[test]
fn vendor_placeholder_without_fallback_uses_set_variable() {
    let e = env(&[("SUBGRAPH_URL", "http://a/")]);
    assert_eq!(expand_placeholders("${env.SUBGRAPH_URL}", &e), Ok("http://a/".to_string()));
}

#[test]
fn set_but_empty_variable_is_used_not_the_fallback() {
    let e = env(&[("X", "")]);
    assert_eq!(expand_placeholders("${env.X:-d}", &e), Ok(String::new()));
}

#[test]
fn canonical_placeholder_is_expanded_too() {
    let e = env(&[("HOST", "db")]);
    assert_eq!(expand_placeholders("http://${HOST}:5432/", &e), Ok("http://db:5432/".to_string()));
}

#[test]
fn text_without_dollar_is_unchanged() {
    let e = env(&[("X", "1")]);
    assert_eq!(expand_placeholders("http://127.0.0.1:4000/graphql", &e), Ok("http://127.0.0.1:4000/graphql".to_string()));
}

#[test]
fn first_occurrence_of_a_variable_counts() {
    let e = env(&[("X", "first"), ("X", "second")]);
    assert_eq!(e.get("X"), Some("first".to_string()));
    assert_eq!(e.get("Y"), None);
    assert_eq!(expand_placeholders("${env.X}", &e), Ok("first".to_string()));
}

#[test]
fn dollar_detection() {
    assert!(has_dollar("a$b"));
    assert!(!has_dollar("abc"));
    assert!(!has_dollar(""));
}
