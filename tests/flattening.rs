use ds_tokens_rust::{
    convert_to_flat_list, decimal, flatten, is_index, process_json, to_identifier, variable_name,
    FlatTokenListItem, Token,
};

fn object(members: Vec<(&str, Token)>) -> Token {
    Token::Object(members.into_iter().map(|(k, v)| (k.to_string(), v)).collect())
}

fn text(s: &str) -> Token {
    Token::Str(s.to_string())
}

fn entry(path: &[&str], value: &str) -> FlatTokenListItem {
    (path.iter().map(|s| s.to_string()).collect(), value.to_string())
}

fn mixed_tree() -> Token {
    object(vec![
        ("a", Token::Null),
        ("b", Token::Bool(true)),
        (
            "c",
            Token::Array(vec![Token::Null, Token::Number("1.50".to_string()), text("x")]),
        ),
        ("d", object(vec![("e", Token::Null), ("f", Token::Bool(false))])),
        ("g", Token::Array(vec![])),
    ])
}

#[test]
fn flatten_array_paths_start_at_one() {
    let tree = object(vec![(
        "colors",
        object(vec![("primary", Token::Array(vec![text("#fff"), text("#000")]))]),
    )]);
    let flat = flatten(&tree);
    assert_eq!(
        flat,
        vec![
            entry(&["colors", "primary", "1"], "#fff"),
            entry(&["colors", "primary", "2"], "#000"),
        ]
    );
}

#[test]
fn flatten_skips_null_leaves() {
    let flat = flatten(&mixed_tree());
    assert_eq!(
        flat,
        vec![
            entry(&["b"], "true"),
            entry(&["c", "2"], "1.50"),
            entry(&["c", "3"], "x"),
            entry(&["d", "f"], "false"),
        ]
    );
}

#[test]
fn flatten_counts_scalar_leaves() {
    assert_eq!(flatten(&mixed_tree()).len(), 4);
    assert_eq!(flatten(&Token::Null).len(), 0);
    assert_eq!(flatten(&text("solo")), vec![(vec![], "solo".to_string())]);
}

#[test]
fn flatten_is_deterministic() {
    let tree = mixed_tree();
    assert_eq!(flatten(&tree), flatten(&tree));
}

#[test]
fn flat_list_appends_under_prefix() {
    let start = vec![entry(&["z"], "0")];
    let got = convert_to_flat_list(
        &Token::Array(vec![text("p")]),
        start,
        vec!["root".to_string()],
    );
    assert_eq!(got, vec![entry(&["z"], "0"), entry(&["root", "1"], "p")]);
}

#[test]
fn decimal_text_of_indices() {
    assert_eq!(decimal(0), "0");
    assert_eq!(decimal(7), "7");
    assert_eq!(decimal(120), "120");
}

#[test]
fn identifiers_are_singular_kebab() {
    assert_eq!(to_identifier("fontWeights"), "font-weight");
    assert_eq!(to_identifier("colors"), "color");
    assert_eq!(to_identifier("12"), "12");
    assert!(is_index("12"));
    assert!(!is_index(""));
    assert!(!is_index("1a"));
}

#[test]
fn identifiers_idempotent_on_singular_kebab() {
    for s in ["color", "font-weight", "primary", "semibold"] {
        assert_eq!(to_identifier(s), s);
        assert_eq!(to_identifier(&to_identifier(s)), to_identifier(s));
    }
}

#[test]
fn variable_name_joins_segments() {
    let path = vec!["fontWeights".to_string(), "regular".to_string()];
    assert_eq!(variable_name(&path), "font-weight-regular");
    assert_eq!(variable_name(&vec![]), "");
}

#[test]
fn json_of_scalars_and_empty_containers() {
    assert_eq!(process_json(&Token::Null).unwrap(), "null");
    assert_eq!(process_json(&Token::Bool(false)).unwrap(), "false");
    assert_eq!(process_json(&Token::Number("2.50".to_string())).unwrap(), "2.50");
    assert_eq!(process_json(&Token::Array(vec![])).unwrap(), "[]");
    assert_eq!(process_json(&object(vec![])).unwrap(), "{}");
    assert_eq!(process_json(&text("a\"b")).unwrap(), "\"a\\\"b\"");
}

fn to_value(t: &Token) -> serde_json::Value {
    match t {
        Token::Null => serde_json::Value::Null,
        Token::Bool(b) => serde_json::Value::Bool(*b),
        Token::Number(n) => serde_json::from_str(n).unwrap(),
        Token::Str(s) => serde_json::Value::String(s.clone()),
        Token::Array(items) => serde_json::Value::Array(items.iter().map(to_value).collect()),
        Token::Object(members) => {
            let mut map = serde_json::Map::new();
            for (k, v) in members {
                map.insert(k.clone(), to_value(v));
            }
            serde_json::Value::Object(map)
        },
    }
}

fn from_value(v: &serde_json::Value) -> Token {
    match v {
        serde_json::Value::Null => Token::Null,
        serde_json::Value::Bool(b) => Token::Bool(*b),
        serde_json::Value::Number(n) => Token::Number(n.to_string()),
        serde_json::Value::String(s) => Token::Str(s.clone()),
        serde_json::Value::Array(items) => Token::Array(items.iter().map(from_value).collect()),
        serde_json::Value::Object(members) => {
            Token::Object(members.iter().map(|(k, v)| (k.clone(), from_value(v))).collect())
        },
    }
}

fn nested_tree() -> Token {
    object(vec![
        ("name", text("tab\there \"quoted\" \\ done")),
        ("flag", Token::Bool(true)),
        ("none", Token::Null),
        (
            "list",
            Token::Array(vec![
                Token::Number("1".to_string()),
                object(vec![("deep", Token::Array(vec![]))]),
                Token::Array(vec![text("x")]),
            ]),
        ),
        ("z", object(vec![])),
        ("a", Token::Number("-3".to_string())),
    ])
}

#[test]
fn json_matches_pretty_serialization() {
    let tree = nested_tree();
    let expected = format!("{:#}", to_value(&tree));
    assert_eq!(process_json(&tree).unwrap(), expected);
}

#[test]
fn json_round_trip() {
    let tree = nested_tree();
    let text = process_json(&tree).unwrap();
    let parsed: serde_json::Value = serde_json::from_str(&text).unwrap();
    assert_eq!(from_value(&parsed), tree);
}
