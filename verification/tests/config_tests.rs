use configguard::config::{detect_format, format_for_extension, Config, ConfigFormat};
use configguard::error::ConfigGuardError;
use configguard::number::Number;
use configguard::value::ConfigValue;

#[test]
fn test_detect_format() {
    // Valid YAML extensions
    assert_eq!(detect_format("config.yaml").unwrap(), ConfigFormat::Yaml);
    assert_eq!(detect_format("config.yml").unwrap(), ConfigFormat::Yaml);

    // Valid JSON extension
    assert_eq!(detect_format("config.json").unwrap(), ConfigFormat::Json);

    // Invalid extension
    let result = detect_format("config.txt");
    assert!(result.is_err());
    match result {
        Err(ConfigGuardError::UnsupportedFormat { path, extension }) => {
            assert_eq!(path, "config.txt");
            assert_eq!(extension, "txt");
        }
        _ => panic!("Expected UnsupportedFormat error"),
    }
}

#[test]
fn test_load_valid_yaml() {
    let yaml = r#"
            name: test
            spec:
              replicas: 3
              containers:
                - name: app
                  image: nginx:latest
        "#;

    let config = Config::from_str(yaml, ConfigFormat::Yaml).unwrap();
    assert_eq!(config.format, ConfigFormat::Yaml);

    if let ConfigValue::Mapping(_) = &config.data {
        assert!(config.data.contains_key("name"));
        assert!(config.data.contains_key("spec"));
    } else {
        panic!("Expected mapping");
    }
}

#[test]
fn test_load_valid_json() {
    let json = r#"{
            "name": "test",
            "spec": {
                "replicas": 3,
                "containers": [
                    {
                        "name": "app",
                        "image": "nginx:latest"
                    }
                ]
            }
        }"#;

    let config = Config::from_str(json, ConfigFormat::Json).unwrap();
    assert_eq!(config.format, ConfigFormat::Json);

    if let ConfigValue::Mapping(_) = &config.data {
        assert!(config.data.contains_key("name"));
        assert!(config.data.contains_key("spec"));
    } else {
        panic!("Expected mapping");
    }
}

#[test]
fn test_load_invalid_yaml() {
    let invalid_yaml = "this: is: invalid: yaml:";
    let result = Config::from_str(invalid_yaml, ConfigFormat::Yaml);

    assert!(result.is_err());
    match result {
        Err(ConfigGuardError::ParseYaml(_)) => (),
        _ => panic!("Expected ParseYaml error"),
    }
}

#[test]
fn test_load_invalid_json() {
    let invalid_json = "{name: test}";
    let result = Config::from_str(invalid_json, ConfigFormat::Json);

    assert!(result.is_err());
    match result {
        Err(ConfigGuardError::ParseJson(_)) => (),
        _ => panic!("Expected ParseJson error"),
    }
}

#[test]
fn detect_format_ignores_case_of_extension() {
    assert_eq!(detect_format("Config.YAML").unwrap(), ConfigFormat::Yaml);
    assert_eq!(detect_format("dir/config.Yml").unwrap(), ConfigFormat::Yaml);
    assert_eq!(detect_format("a.b.JSON").unwrap(), ConfigFormat::Json);
}

#[test]
fn detect_format_without_extension_reports_empty_extension() {
    match detect_format("Makefile") {
        Err(ConfigGuardError::UnsupportedFormat { path, extension }) => {
            assert_eq!(path, "Makefile");
            assert_eq!(extension, "");
        }
        other => panic!("Expected UnsupportedFormat error, got {:?}", other),
    }
}

#[test]
fn format_for_extension_lowers_the_reported_extension() {
    match format_for_extension("notes.TXT", Some("TXT".to_string())) {
        Err(ConfigGuardError::UnsupportedFormat { path, extension }) => {
            assert_eq!(path, "notes.TXT");
            assert_eq!(extension, "txt");
        }
        other => panic!("Expected UnsupportedFormat error, got {:?}", other),
    }
    assert_eq!(
        format_for_extension("x", Some("JsOn".to_string())).unwrap(),
        ConfigFormat::Json
    );
}

#[test]
fn from_str_keeps_the_source_text_and_no_path() {
    let config = Config::from_str("a: 1", ConfigFormat::Yaml).unwrap();
    assert_eq!(config.content.as_deref(), Some("a: 1"));
    assert!(config.path.is_none());
}

#[test]
fn from_str_classifies_numbers() {
    let config = Config::from_str("a: 1\nb: -2\nc: 1.5\nd: 18446744073709551615", ConfigFormat::Yaml)
        .unwrap();
    match config.data.get("a") {
        Some(ConfigValue::Number(Number::PosInt(1))) => {}
        other => panic!("unexpected {:?}", other),
    }
    match config.data.get("b") {
        Some(ConfigValue::Number(Number::NegInt(-2))) => {}
        other => panic!("unexpected {:?}", other),
    }
    match config.data.get("c") {
        Some(ConfigValue::Number(Number::Float { bits, text, written })) => {
            assert_eq!(*bits, 1.5f64.to_bits());
            assert_eq!(text, "1.5");
            assert_eq!(written, "1.5");
        }
        other => panic!("unexpected {:?}", other),
    }
    match config.data.get("d") {
        Some(ConfigValue::Number(Number::PosInt(u64::MAX))) => {}
        other => panic!("unexpected {:?}", other),
    }
}

#[test]
fn from_str_keeps_document_order_and_shapes() {
    let config = Config::from_str(
        "{\"z\": [true, null, \"s\"], \"a\": {\"k\": 2.0}}",
        ConfigFormat::Json,
    )
    .unwrap();
    match &config.data {
        ConfigValue::Mapping(entries) => {
            assert_eq!(entries.len(), 2);
            assert!(matches!(&entries[0].0, ConfigValue::String(k) if k == "z"));
            assert!(matches!(&entries[1].0, ConfigValue::String(k) if k == "a"));
            match &entries[0].1 {
                ConfigValue::Sequence(items) => {
                    assert!(matches!(items[0], ConfigValue::Bool(true)));
                    assert!(matches!(items[1], ConfigValue::Null));
                    assert!(matches!(&items[2], ConfigValue::String(s) if s == "s"));
                }
                other => panic!("unexpected {:?}", other),
            }
        }
        other => panic!("unexpected {:?}", other),
    }
    assert!(config.data.get("missing").is_none());
}

#[test]
fn from_str_keeps_a_yaml_tag() {
    let config = Config::from_str("a: !custom 3\nb: !t [x]", ConfigFormat::Yaml).unwrap();
    match config.data.get("a") {
        Some(ConfigValue::Tagged(tag, inner)) => {
            assert_eq!(tag, "!custom");
            assert!(matches!(**inner, ConfigValue::Number(Number::PosInt(3))));
        }
        other => panic!("unexpected {:?}", other),
    }
    match config.data.get("b") {
        Some(ConfigValue::Tagged(tag, inner)) => {
            assert_eq!(tag, "!t");
            assert!(matches!(&**inner, ConfigValue::Sequence(items) if items.len() == 1));
        }
        other => panic!("unexpected {:?}", other),
    }
}

#[test]
fn from_parsed_builds_the_tree_of_the_parser() {
    let tree: serde_yaml::Value = serde_yaml::from_str("k: [1, -2, 2.5, true, ~, s]").unwrap();
    let config = Config::from_parsed("text", ConfigFormat::Yaml, Ok(tree)).unwrap();
    assert_eq!(config.content.as_deref(), Some("text"));
    match config.data.get("k") {
        Some(ConfigValue::Sequence(items)) => {
            assert!(matches!(items[0], ConfigValue::Number(Number::PosInt(1))));
            assert!(matches!(items[1], ConfigValue::Number(Number::NegInt(-2))));
            assert!(matches!(&items[2], ConfigValue::Number(Number::Float { bits, text, written })
                if *bits == 2.5f64.to_bits() && text == "2.5" && written == "2.5"));
            assert!(matches!(items[3], ConfigValue::Bool(true)));
            assert!(matches!(items[4], ConfigValue::Null));
            assert!(matches!(&items[5], ConfigValue::String(s) if s == "s"));
        }
        other => panic!("unexpected {:?}", other),
    }
    match Config::from_parsed("t", ConfigFormat::Json, Err("bad".to_string())) {
        Err(ConfigGuardError::ParseJson(m)) => assert_eq!(m, "bad"),
        other => panic!("unexpected {:?}", other),
    }
    match Config::from_parsed("t", ConfigFormat::Yaml, Err("worse".to_string())) {
        Err(ConfigGuardError::ParseYaml(m)) => assert_eq!(m, "worse"),
        other => panic!("unexpected {:?}", other),
    }
}

#[test]
fn a_tree_that_is_too_deep_is_refused() {
    let mut tree = serde_yaml::Value::Null;
    for _ in 0..1100 {
        tree = serde_yaml::Value::Sequence(vec![tree]);
    }
    match Config::from_parsed("", ConfigFormat::Yaml, Ok(tree)) {
        Err(ConfigGuardError::ParseYaml(m)) => assert_eq!(m, "document is nested too deeply"),
        other => panic!("unexpected {:?}", other.map(|_| ())),
    }
    let mut tree = serde_yaml::Value::Null;
    for _ in 0..1023 {
        tree = serde_yaml::Value::Sequence(vec![tree]);
    }
    assert!(Config::from_parsed("", ConfigFormat::Yaml, Ok(tree)).is_ok());
}

#[test]
fn floats_keep_the_text_that_yaml_writes() {
    let config = Config::from_str("a: 1.0\nb: .inf\nc: 1e21", ConfigFormat::Yaml).unwrap();
    match config.data.get("a") {
        Some(ConfigValue::Number(Number::Float { text, written, .. })) => {
            assert_eq!(text, "1");
            assert_eq!(written, "1.0");
        }
        other => panic!("unexpected {:?}", other),
    }
    match config.data.get("b") {
        Some(ConfigValue::Number(Number::Float { bits, text, written })) => {
            assert_eq!(*bits, f64::INFINITY.to_bits());
            assert_eq!(text, "inf");
            assert_eq!(written, ".inf");
        }
        other => panic!("unexpected {:?}", other),
    }
    let tree: serde_yaml::Value = serde_yaml::from_str("[1.0, 2, x]").unwrap();
    let expected = format!("{:?}", tree);
    let config = Config::from_parsed("", ConfigFormat::Yaml, Ok(tree)).unwrap();
    assert_eq!(configguard::value::debug_string(&config.data), expected);
}

#[test]
fn rendering_agrees_with_the_parser_on_parsed_documents() {
    let documents = [
        "~",
        "true",
        "- 1\n- -2\n- 1.0\n- 2.5e10\n- .nan\n- -.inf\n- 18446744073709551615",
        "a: x\nb: \"quoted \\\" and \\\\ and \\n\"\nc: []\nd: {}\n",
        "1: one\ntrue: yes\n2.5: float\n~: nothing\n[a, b]: list\n{k: v}: map\n",
        "outer:\n  inner:\n    - {x: 1, y: [2, 3]}\n    - !tag value\n    - !other [1, 2]\n",
        "text: \"tab\\there \u{e9}\u{1F600}\"",
        "!top {a: !nested 1}",
    ];
    for text in documents {
        let tree: serde_yaml::Value = serde_yaml::from_str(text).unwrap();
        let expected = format!("{:?}", tree);
        let config = Config::from_parsed(text, ConfigFormat::Yaml, Ok(tree)).unwrap();
        assert_eq!(configguard::value::debug_string(&config.data), expected, "{}", text);
    }
}
