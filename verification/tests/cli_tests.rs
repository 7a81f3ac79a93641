use configguard::cli::{
    batch_failure, config_outcome_line, configs_result, configs_step, directories_result,
    directory_outcome_line, format_summary, is_config_extension, output_format_named,
    validate_single_config, RunResult, Tally,
};
use configguard::config::{Config, ConfigFormat};
use configguard::error::{extract_validation_errors, ConfigGuardError};
use configguard::reporting::ReportFormat;
use configguard::schema::{KeyRules, Schema, SchemaRule, SchemaType};
use configguard::validation::{validate_value, ValidationError, ValidationResult};
use configguard::value::ConfigValue;

fn rule(data_type: SchemaType) -> SchemaRule {
    SchemaRule {
        data_type,
        description: None,
        required: false,
        allow_unknown_keys: true,
        pattern: None,
        enum_values: None,
        min: None,
        max: None,
        min_length: None,
        max_length: None,
        items: None,
        keys: None,
    }
}

fn name_schema() -> Schema {
    let mut keys = KeyRules::new();
    let mut name = rule(SchemaType::String);
    name.required = true;
    keys.insert("name".to_string(), name);
    let mut root = rule(SchemaType::Object);
    root.keys = Some(keys);
    Schema { root }
}

fn failed() -> Result<bool, ConfigGuardError> {
    Err(ConfigGuardError::ParseYaml("bad".to_string()))
}

#[test]
fn output_format_by_name() {
    assert_eq!(output_format_named("json"), ReportFormat::Json);
    assert_eq!(output_format_named("text"), ReportFormat::Text);
    assert_eq!(output_format_named("JSON"), ReportFormat::Text);
    assert_eq!(output_format_named(""), ReportFormat::Text);
}

#[test]
fn batch_failure_counts_and_carries_a_general_sample() {
    match batch_failure(3) {
        ConfigGuardError::ValidationErrors { count, source } => {
            assert_eq!(count, 3);
            match *source {
                ConfigGuardError::Validation { message, path, expected, actual } => {
                    assert_eq!(message, "One or more configurations failed validation");
                    assert_eq!(path, "");
                    assert_eq!(expected, "Valid configuration");
                    assert_eq!(actual, "Invalid configuration");
                }
                other => panic!("unexpected {:?}", other),
            }
        }
        other => panic!("unexpected {:?}", other),
    }
    assert_eq!(batch_failure(3).exit_code(), 10);
}

#[test]
fn single_config_valid_gives_the_report() {
    let config = Config::from_str("name: x", ConfigFormat::Yaml).unwrap();
    let (report, has_errors) =
        validate_single_config(&config, &name_schema(), false, &ReportFormat::Text).unwrap();
    assert_eq!(report, "Configuration validation passed.\n");
    assert!(!has_errors);
    let (report, has_errors) =
        validate_single_config(&config, &name_schema(), true, &ReportFormat::Json).unwrap();
    assert_eq!(report, "{\n  \"valid\": true,\n  \"error_count\": 0,\n  \"errors\": []\n}");
    assert!(!has_errors);
}

#[test]
fn single_config_invalid_gives_the_report_of_every_violation() {
    let config = Config::from_str("other: x", ConfigFormat::Yaml).unwrap();
    let (report, has_errors) =
        validate_single_config(&config, &name_schema(), true, &ReportFormat::Text).unwrap();
    assert!(has_errors);
    assert_eq!(
        report,
        "Configuration validation failed with 2 errors:\n\
1. Error at path '.name': Required key missing\n   Expected: Key to be present\n   Found: Key is absent\n\n\
2. Error at path '.other' (line 1): Unknown key\n   Expected: Key defined in schema\n   Found: Undefined key\n"
    );
    let mut bad = rule(SchemaType::String);
    bad.pattern = Some("(".to_string());
    assert!(matches!(
        validate_single_config(&config, &Schema { root: bad }, false, &ReportFormat::Json),
        Ok((_, true))
    ));
}

#[test]
fn validate_value_lists_violations_in_its_answer() {
    let schema = name_schema();
    let valid = ConfigValue::Mapping(vec![(
        ConfigValue::String("name".to_string()),
        ConfigValue::String("x".to_string()),
    )]);
    assert!(matches!(validate_value(&valid, &schema, true), Ok(ValidationResult::Valid)));
    let invalid = ConfigValue::Mapping(Vec::new());
    match validate_value(&invalid, &schema, false) {
        Ok(ValidationResult::Invalid(errors)) => {
            assert_eq!(errors.len(), 1);
            assert_eq!(errors[0].path, ".name");
            assert_eq!(errors[0].message, "Required key missing");
            assert_eq!(errors[0].line, None);
        }
        other => panic!("unexpected {:?}", other),
    }
    let mut bad = rule(SchemaType::String);
    bad.pattern = Some("(".to_string());
    let value = ConfigValue::String("x".to_string());
    assert!(matches!(
        validate_value(&value, &Schema { root: bad }, false),
        Err(ConfigGuardError::Pattern(_))
    ));
}

#[test]
fn lines_for_documents_of_a_run() {
    let text = ReportFormat::Text;
    assert_eq!(config_outcome_line("a.yaml", 1, text, &Ok(false)), None);
    assert_eq!(config_outcome_line("a.yaml", 1, text, &Ok(true)), None);
    assert_eq!(
        config_outcome_line("a.yaml", 2, text, &Ok(false)).as_deref(),
        Some("\u{2705} a.yaml: Valid")
    );
    assert_eq!(
        config_outcome_line("a.yaml", 2, text, &Ok(true)).as_deref(),
        Some("\u{274c} a.yaml: Invalid")
    );
    assert_eq!(
        config_outcome_line("a.yaml", 1, text, &failed()).as_deref(),
        Some("Error processing a.yaml: Failed to parse YAML: bad")
    );
    assert_eq!(config_outcome_line("a.yaml", 2, ReportFormat::Json, &Ok(true)), None);
    assert_eq!(config_outcome_line("a.yaml", 2, ReportFormat::Json, &failed()), None);
    assert_eq!(directory_outcome_line("d/a.yaml", &Ok(false)), "\u{2705} d/a.yaml: Valid");
    assert_eq!(directory_outcome_line("d/a.yaml", &Ok(true)), "\u{274c} d/a.yaml: Invalid");
    assert_eq!(
        directory_outcome_line("d/a.yaml", &failed()),
        "\u{274c} d/a.yaml: Error - Failed to parse YAML: bad"
    );
}

#[test]
fn steps_of_a_run_over_documents() {
    assert!(matches!(configs_step(false, 3, Ok(false)), Ok(false)));
    assert!(matches!(configs_step(false, 3, Ok(true)), Ok(true)));
    assert!(matches!(configs_step(true, 3, Ok(false)), Ok(true)));
    assert!(matches!(configs_step(false, 3, failed()), Ok(true)));
    assert!(matches!(
        configs_step(false, 1, failed()),
        Err(ConfigGuardError::ParseYaml(m)) if m == "bad"
    ));
    assert!(matches!(configs_result(false), RunResult::Success));
    match configs_result(true) {
        RunResult::Failure(ConfigGuardError::ValidationErrors { count, .. }) => {
            assert_eq!(count, 1)
        }
        other => panic!("unexpected {:?}", other),
    }
}

#[test]
fn tally_of_a_run_over_directories() {
    let mut tally = Tally::new();
    assert_eq!(tally, Tally { processed: 0, valid: 0, skipped: 0 });
    assert!(!tally.has_failures());
    tally.record(&Ok(false));
    assert!(!tally.has_failures());
    tally.record(&Ok(true));
    tally.record(&failed());
    tally.skip();
    assert_eq!(tally, Tally { processed: 3, valid: 1, skipped: 1 });
    assert!(tally.has_failures());
    let mut total = Tally { processed: 10, valid: 9, skipped: 2 };
    total.add(&tally);
    assert_eq!(total, Tally { processed: 13, valid: 10, skipped: 3 });
    assert_eq!(
        format_summary(&total),
        "\nValidation Summary:\n  Processed: 13 files\n  Valid: 10 files\n  Invalid: 3 files\n  Skipped: 3 files (incompatible extension)"
    );
    assert!(matches!(directories_result(&total, false), RunResult::Success));
    match directories_result(&total, true) {
        RunResult::Failure(ConfigGuardError::ValidationErrors { count, .. }) => {
            assert_eq!(count, 3)
        }
        other => panic!("unexpected {:?}", other),
    }
}

#[test]
fn extensions_of_documents() {
    for e in ["yaml", "yml", "json", "YAML", "Json"] {
        assert!(is_config_extension(e), "{}", e);
    }
    for e in ["txt", "", "yamll", "toml"] {
        assert!(!is_config_extension(e), "{}", e);
    }
}

fn violation(path: &str) -> ValidationError {
    ValidationError {
        path: path.to_string(),
        message: "Type mismatch".to_string(),
        expected: "Integer".to_string(),
        actual: "string".to_string(),
        description: Some("d".to_string()),
        line: Some(2),
    }
}

fn listed(errors: &[ValidationError]) -> Vec<(String, String, String, String, Option<String>, Option<usize>)> {
    errors
        .iter()
        .map(|e| {
            (
                e.path.clone(),
                e.message.clone(),
                e.expected.clone(),
                e.actual.clone(),
                e.description.clone(),
                e.line,
            )
        })
        .collect()
}

#[test]
fn violations_that_a_failure_stands_for() {
    let all = ConfigGuardError::AllValidationErrors { errors: vec![violation(".a"), violation(".b")] };
    let extracted = extract_validation_errors(&all).unwrap();
    assert_eq!(listed(&extracted), listed(&[violation(".a"), violation(".b")]));
    let none = ConfigGuardError::AllValidationErrors { errors: Vec::new() };
    assert!(extract_validation_errors(&none).is_none());
    let single = || ConfigGuardError::Validation {
        message: "m".to_string(),
        path: ".p".to_string(),
        expected: "e".to_string(),
        actual: "a".to_string(),
    };
    let plain = (".p".to_string(), "m".to_string(), "e".to_string(), "a".to_string(), None, None);
    assert_eq!(listed(&extract_validation_errors(&single()).unwrap()), vec![plain.clone()]);
    let counted = ConfigGuardError::ValidationErrors { count: 5, source: Box::new(single()) };
    assert_eq!(
        listed(&extract_validation_errors(&counted).unwrap()),
        vec![
            plain.clone(),
            (
                String::new(),
                "and 4 more validation errors".to_string(),
                String::new(),
                String::new(),
                None,
                None
            )
        ]
    );
    let one = ConfigGuardError::ValidationErrors { count: 1, source: Box::new(single()) };
    assert_eq!(listed(&extract_validation_errors(&one).unwrap()), vec![plain]);
    let odd = ConfigGuardError::ValidationErrors {
        count: 0,
        source: Box::new(ConfigGuardError::Cli("x".to_string())),
    };
    assert!(extract_validation_errors(&odd).unwrap().is_empty());
    assert!(extract_validation_errors(&ConfigGuardError::Schema("s".to_string())).is_none());
}

#[test]
fn source_of_a_failure() {
    let single = ConfigGuardError::Validation {
        message: "m".to_string(),
        path: ".p".to_string(),
        expected: "e".to_string(),
        actual: "a".to_string(),
    };
    assert!(single.source().is_none());
    let counted = ConfigGuardError::ValidationErrors { count: 2, source: Box::new(single) };
    assert!(matches!(counted.source(), Some(ConfigGuardError::Validation { .. })));
    let all = ConfigGuardError::AllValidationErrors { errors: Vec::new() };
    assert!(all.source().is_none());
}
