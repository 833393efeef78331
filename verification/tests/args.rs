use coplex_cage::cli::{env_from_pairs, parse_agent_spec, parse_env_pair};

#[test]
fn env_pair_splits_at_first_equals() {
    assert_eq!(parse_env_pair("A=1"), Some(("A".to_string(), "1".to_string())));
    assert_eq!(parse_env_pair("A=1=2"), Some(("A".to_string(), "1=2".to_string())));
    assert_eq!(parse_env_pair("=x"), Some((String::new(), "x".to_string())));
    assert_eq!(parse_env_pair("novalue"), None);
}

#[test]
fn env_from_pairs_skips_malformed_and_overrides() {
    let pairs = vec!["A=1".to_string(), "bad".to_string(), "B=2".to_string(), "A=3".to_string()];
    assert_eq!(env_from_pairs(&pairs), vec![("A".to_string(), "3".to_string()), ("B".to_string(), "2".to_string())]);
}

#[test]
fn agent_spec_is_id_and_path() {
    assert_eq!(parse_agent_spec("leader=a.wasm"), ("leader".to_string(), "a.wasm".to_string()));
    assert_eq!(parse_agent_spec("w.wasm"), ("w.wasm".to_string(), "w.wasm".to_string()));
    assert_eq!(parse_agent_spec("x=y=z"), ("x".to_string(), "y=z".to_string()));
}
