use todoism::input::{expand_key, parse_args, KeyError};

#[test]
fn test_parse_simple() {
    let args = vec![
        "Buy".to_string(),
        "milk".to_string(),
        "due:tomorrow".to_string(),
        "project:Groceries".to_string(),
    ];
    let parsed = parse_args(&args);
    assert_eq!(parsed.name, "Buy milk");
    assert_eq!(parsed.get("due"), Some("tomorrow".to_string()));
    assert_eq!(parsed.get("project"), Some("Groceries".to_string()));
}

#[test]
fn parse_args_later_key_wins_and_colon_words() {
    let args = vec![
        "due:mon".to_string(),
        ":start".to_string(),
        "a:b:c".to_string(),
        "due:fri".to_string(),
        "plain".to_string(),
    ];
    let parsed = parse_args(&args);
    assert_eq!(parsed.name, ":start plain");
    assert_eq!(parsed.metadata.len(), 2);
    assert_eq!(parsed.get("due"), Some("fri".to_string()));
    assert_eq!(parsed.get("a"), Some("b:c".to_string()));
    assert_eq!(parsed.get("x"), None);
}

#[test]
fn test_expand_key() {
    let candidates = vec!["due", "project", "priority"];

    assert_eq!(expand_key("d", &candidates).unwrap(), "due");
    assert_eq!(expand_key("du", &candidates).unwrap(), "due");
    assert_eq!(expand_key("due", &candidates).unwrap(), "due");

    assert_eq!(expand_key("pro", &candidates).unwrap(), "project");
    assert_eq!(expand_key("pri", &candidates).unwrap(), "priority");

    assert!(expand_key("p", &candidates).is_err());
    assert!(expand_key("pr", &candidates).is_err());

    assert!(expand_key("x", &candidates).is_err());
}

#[test]
fn expand_key_errors_name_the_key_and_matches() {
    let candidates = vec!["due", "project", "priority"];
    assert_eq!(
        expand_key("pr", &candidates),
        Err(KeyError::Ambiguous("pr".to_string(), vec!["project".to_string(), "priority".to_string()]))
    );
    assert_eq!(expand_key("x", &candidates), Err(KeyError::Unknown("x".to_string())));
    // An exact match wins over being a prefix of another candidate.
    assert_eq!(expand_key("pro", &vec!["pro", "project"]).unwrap(), "pro");
}
