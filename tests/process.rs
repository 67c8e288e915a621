use ds_tokens_rust::{Process, Token, Transform};

fn num(s: &str) -> Token {
    Token::Number(s.to_string())
}

fn object(members: Vec<(&str, Token)>) -> Token {
    Token::Object(members.into_iter().map(|(k, v)| (k.to_string(), v)).collect())
}

/// The font-weight document with its members in key order.
fn font_weights_by_key() -> Token {
    object(vec![(
        "fontWeights",
        object(vec![
            ("bold", num("700")),
            ("medium", num("500")),
            ("regular", num("400")),
            ("semibold", num("600")),
        ]),
    )])
}

/// The font-weight document with its members in document order.
fn font_weights_in_order() -> Token {
    object(vec![(
        "fontWeights",
        object(vec![
            ("regular", num("400")),
            ("medium", num("500")),
            ("semibold", num("600")),
            ("bold", num("700")),
        ]),
    )])
}

#[test]
fn transform_type() {
    let default_values: Vec<String> = Transform::variant_names();
    assert_eq!(default_values, vec!("css", "scss", "json", "ts"));
}

#[test]
fn test_css_process() {
    let contents = font_weights_by_key();
    let actual_results = Transform::Css.process(&contents).unwrap();
    let expected_results = "
:root { 
  --font-weight-bold: 700;
  --font-weight-medium: 500;
  --font-weight-regular: 400;
  --font-weight-semibold: 600;
}
";
    assert_eq!(actual_results, expected_results);
}

#[test]
fn test_scss_process() {
    let contents = font_weights_by_key();
    let actual_results = Transform::Scss.process(&contents).unwrap();
    let expected_results = "$font-weight-bold: 700;
$font-weight-medium: 500;
$font-weight-regular: 400;
$font-weight-semibold: 600;";
    assert_eq!(actual_results, expected_results);
}

#[test]
fn css_keeps_document_order() {
    let contents = font_weights_in_order();
    let actual = Transform::Css.process(&contents).unwrap();
    let expected = "\n:root { \n  --font-weight-regular: 400;\n  --font-weight-medium: 500;\n  --font-weight-semibold: 600;\n  --font-weight-bold: 700;\n}\n";
    assert_eq!(actual, expected);
}

#[test]
fn scss_keeps_document_order() {
    let contents = font_weights_in_order();
    let actual = Transform::Scss.process(&contents).unwrap();
    let expected = "$font-weight-regular: 400;\n$font-weight-medium: 500;\n$font-weight-semibold: 600;\n$font-weight-bold: 700;";
    assert_eq!(actual, expected);
}

#[test]
fn css_of_array_leaves() {
    let contents = object(vec![(
        "colors",
        object(vec![(
            "primary",
            Token::Array(vec![
                Token::Str("#fff".to_string()),
                Token::Str("#000".to_string()),
            ]),
        )]),
    )]);
    let actual = Transform::Css.process(&contents).unwrap();
    assert_eq!(
        actual,
        "\n:root { \n  --color-primary-1: #fff;\n  --color-primary-2: #000;\n}\n"
    );
}

#[test]
fn css_of_empty_document() {
    let contents = object(vec![]);
    assert_eq!(Transform::Css.process(&contents).unwrap(), "\n:root { \n\n}\n");
    assert_eq!(Transform::Scss.process(&contents).unwrap(), "");
}

#[test]
fn json_process_pretty_prints() {
    let contents = font_weights_in_order();
    let actual = Transform::Json.process(&contents).unwrap();
    let expected = "{\n  \"fontWeights\": {\n    \"regular\": 400,\n    \"medium\": 500,\n    \"semibold\": 600,\n    \"bold\": 700\n  }\n}";
    assert_eq!(actual, expected);
}

#[test]
fn ts_process_wraps_json() {
    let contents = object(vec![("space", Token::Array(vec![num("4"), num("8")]))]);
    let actual = Transform::Ts.process(&contents).unwrap();
    let expected = "\nexport const themeData = {\n  \"space\": [\n    4,\n    8\n  ]\n} as const;\n\nexport type ThemeType = typeof themeData;\n  ";
    assert_eq!(actual, expected);
}

#[test]
fn format_names_round_trip() {
    for t in [Transform::Css, Transform::Scss, Transform::Json, Transform::Ts] {
        let name = t.name();
        assert_eq!(Transform::from_name(&name).unwrap(), t);
    }
    assert_eq!(Transform::Scss.name(), "scss");
}

#[test]
fn unknown_format_is_reported() {
    let err = Transform::from_name("less").unwrap_err();
    assert_eq!(err.format, "less");
    assert!(Transform::from_name("CSS").is_err());
    assert!(Transform::from_name("").is_err());
}

#[test]
fn requested_formats_default_to_all() {
    let all = ds_tokens_rust::requested_transforms(&vec![]);
    let names: Vec<String> = all.iter().map(|r| r.as_ref().unwrap().name()).collect();
    assert_eq!(names, vec!["css", "scss", "json", "ts"]);
}

#[test]
fn requested_formats_keep_order_and_flag_unknown() {
    let requested = vec!["ts".to_string(), "less".to_string(), "css".to_string()];
    let got = ds_tokens_rust::requested_transforms(&requested);
    assert_eq!(got.len(), 3);
    assert_eq!(*got[0].as_ref().unwrap(), Transform::Ts);
    assert_eq!(got[1].as_ref().unwrap_err().format, "less");
    assert_eq!(*got[2].as_ref().unwrap(), Transform::Css);
}

#[test]
fn output_pairs_carry_extensions() {
    let contents = object(vec![("sizes", object(vec![("small", num("2"))]))]);
    let (ext, text) = ds_tokens_rust::transform_to_css_variables(&contents).unwrap();
    assert_eq!(ext, "css");
    assert_eq!(text, "\n:root { \n  --size-small: 2;\n}\n");
    let (ext, text) = ds_tokens_rust::transform_to_scss_variables(&contents).unwrap();
    assert_eq!(ext, "scss");
    assert_eq!(text, "$size-small: 2;");
    let (ext, text) = ds_tokens_rust::transform_to_json(&contents).unwrap();
    assert_eq!(ext, "json");
    assert_eq!(text, "{\n  \"sizes\": {\n    \"small\": 2\n  }\n}");
    let (ext, text) = ds_tokens_rust::transform_to_typescript(&contents).unwrap();
    assert_eq!(ext, "ts");
    assert!(text.starts_with("\nexport const themeData = {\n"));
}

#[test]
fn json_of_color_scenario() {
    let contents = object(vec![(
        "colors",
        object(vec![(
            "primary",
            Token::Array(vec![Token::Str("#fff".to_string()), Token::Str("#000".to_string())]),
        )]),
    )]);
    let actual = ds_tokens_rust::process_json(&contents).unwrap();
    assert_eq!(
        actual,
        "{\n  \"colors\": {\n    \"primary\": [\n      \"#fff\",\n      \"#000\"\n    ]\n  }\n}"
    );
    assert_eq!(Transform::Json.process(&contents).unwrap(), actual);
}

#[test]
fn json_keeps_member_order_and_keys() {
    let contents = object(vec![("b", num("1")), ("a", num("2"))]);
    assert_eq!(
        Transform::Json.process(&contents).unwrap(),
        "{\n  \"b\": 1,\n  \"a\": 2\n}"
    );
    let weights = object(vec![("fontWeights", object(vec![("regular", num("400"))]))]);
    assert_eq!(
        Transform::Json.process(&weights).unwrap(),
        "{\n  \"fontWeights\": {\n    \"regular\": 400\n  }\n}"
    );
}

#[test]
fn ts_of_single_member() {
    let contents = object(vec![("a", num("1"))]);
    assert_eq!(
        ds_tokens_rust::process_ts(&contents).unwrap(),
        "\nexport const themeData = {\n  \"a\": 1\n} as const;\n\nexport type ThemeType = typeof themeData;\n  "
    );
}

#[test]
fn css_has_one_line_per_leaf() {
    let contents = font_weights_in_order();
    let text = Transform::Css.process(&contents).unwrap();
    assert_eq!(text.lines().count(), 4 + 3);
    assert_eq!(text.matches('\n').count(), 4 + 3);
}

#[test]
fn nested_arrays_number_from_one() {
    let contents = object(vec![(
        "grid",
        Token::Array(vec![
            Token::Array(vec![num("1"), num("2")]),
            Token::Array(vec![Token::Null, num("3")]),
        ]),
    )]);
    let flat = ds_tokens_rust::flatten(&contents);
    let paths: Vec<Vec<String>> = flat.into_iter().map(|(p, _)| p).collect();
    assert_eq!(
        paths,
        vec![
            vec!["grid".to_string(), "1".to_string(), "1".to_string()],
            vec!["grid".to_string(), "1".to_string(), "2".to_string()],
            vec!["grid".to_string(), "2".to_string(), "2".to_string()],
        ]
    );
}
