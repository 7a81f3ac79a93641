use configguard::error::{get_error_path, ConfigGuardError};
use configguard::validation::ValidationError;

fn violation(path: &str, message: &str) -> ValidationError {
    ValidationError {
        path: path.to_string(),
        message: message.to_string(),
        expected: "e".to_string(),
        actual: "a".to_string(),
        description: None,
        line: None,
    }
}

fn single() -> ConfigGuardError {
    ConfigGuardError::Validation {
        message: "Type mismatch".to_string(),
        path: ".a".to_string(),
        expected: "Integer".to_string(),
        actual: "string".to_string(),
    }
}

fn every_kind() -> Vec<(ConfigGuardError, i32, &'static str)> {
    let s = |t: &str| t.to_string();
    vec![
        (
            ConfigGuardError::FileRead { path: s("f.yaml"), error: s("denied") },
            3,
            "Failed to read file 'f.yaml': denied",
        ),
        (
            ConfigGuardError::FileWrite { path: s("out"), error: s("full") },
            3,
            "Failed to write to file 'out': full",
        ),
        (ConfigGuardError::FileNotFound { path: s("gone.yaml") }, 2, "File not found: gone.yaml"),
        (ConfigGuardError::ParseYaml(s("bad")), 4, "Failed to parse YAML: bad"),
        (ConfigGuardError::ParseJson(s("worse")), 4, "Failed to parse JSON: worse"),
        (
            ConfigGuardError::UnsupportedFormat { path: s("a.txt"), extension: s("txt") },
            5,
            "Unsupported file format for 'a.txt' with extension 'txt'",
        ),
        (ConfigGuardError::Serialization(s("m")), 30, "Serialization error: m"),
        (ConfigGuardError::IO(s("m")), 30, "I/O error: m"),
        (ConfigGuardError::Encoding(s("m")), 30, "Encoding error: m"),
        (
            single(),
            10,
            "Validation error at '.a': Type mismatch (expected: Integer, found: string)",
        ),
        (
            ConfigGuardError::ValidationErrors { count: 12, source: Box::new(single()) },
            10,
            "12 validation errors (first error: Validation error at '.a': Type mismatch (expected: Integer, found: string))",
        ),
        (
            ConfigGuardError::AllValidationErrors {
                errors: vec![violation(".x", "Unknown key"), violation(".y", "Type mismatch")],
            },
            10,
            "2 validation errors (first error: Validation error at '.x': Unknown key)",
        ),
        (
            ConfigGuardError::AllValidationErrors { errors: Vec::new() },
            10,
            "0 validation errors",
        ),
        (ConfigGuardError::Pattern(s("p")), 12, "Invalid pattern: p"),
        (ConfigGuardError::Cli(s("c")), 20, "CLI error: c"),
        (ConfigGuardError::Schema(s("x")), 11, "Schema error: x"),
        (ConfigGuardError::Internal(s("i")), 99, "Internal error: i"),
    ]
}

#[test]
fn exit_codes_by_category() {
    for (error, code, _) in every_kind() {
        assert_eq!(error.exit_code(), code, "{:?}", error);
    }
}

#[test]
fn messages_of_every_kind() {
    for (error, _, message) in every_kind() {
        assert_eq!(error.message(), message);
    }
}

#[test]
fn error_path_of_a_violation_and_of_a_sample() {
    assert_eq!(get_error_path(&single()), ".a");
    let counted = ConfigGuardError::ValidationErrors { count: 2, source: Box::new(single()) };
    assert_eq!(get_error_path(&counted), ".a");
    let other = ConfigGuardError::ValidationErrors {
        count: 2,
        source: Box::new(ConfigGuardError::Cli("x".to_string())),
    };
    assert_eq!(get_error_path(&other), "");
    assert_eq!(get_error_path(&ConfigGuardError::Schema("x".to_string())), "");
    let all = ConfigGuardError::AllValidationErrors { errors: vec![violation(".x", "m")] };
    assert_eq!(get_error_path(&all), "");
}
