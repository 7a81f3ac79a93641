use configguard::error::ConfigGuardError;
use configguard::number::Number;
use configguard::schema::{
    default_allow_unknown_keys, parse_failure, KeyRules, Schema, SchemaRule, SchemaType,
};
use configguard::value::ConfigValue;

fn rule(data_type: SchemaType) -> SchemaRule {
    SchemaRule {
        data_type,
        description: None,
        required: false,
        allow_unknown_keys: default_allow_unknown_keys(),
        pattern: None,
        enum_values: None,
        min: None,
        max: None,
        min_length: None,
        max_length: None,
        items: None,
        keys: None,
    }
}

fn object(fields: Vec<(&str, SchemaRule)>) -> SchemaRule {
    let mut keys = KeyRules::new();
    for (name, field) in fields {
        keys.insert(name.to_string(), field);
    }
    let mut r = rule(SchemaType::Object);
    r.keys = Some(keys);
    r
}

fn number(n: u64) -> ConfigValue {
    ConfigValue::Number(Number::PosInt(n))
}

fn float(f: f64) -> ConfigValue {
    ConfigValue::Number(Number::Float {
        bits: f.to_bits(),
        text: format!("{}", f),
        written: format!("{:?}", f),
    })
}

fn schema_message(r: &SchemaRule) -> String {
    match Schema::validate_schema_rule(r) {
        Err(ConfigGuardError::Schema(message)) => message,
        other => panic!("Expected a schema failure, got {:?}", other),
    }
}

#[test]
fn default_tolerates_unknown_keys() {
    assert!(default_allow_unknown_keys());
}

#[test]
fn consistent_schema_is_accepted() {
    let mut name = rule(SchemaType::String);
    name.required = true;
    name.min_length = Some(1);
    name.max_length = Some(1);
    name.pattern = Some("^[a-z]+$".to_string());
    name.enum_values = Some(vec![ConfigValue::String("a".to_string())]);
    let mut count = rule(SchemaType::Integer);
    count.min = Some(number(0));
    count.max = Some(number(0));
    count.enum_values = Some(vec![number(0)]);
    let mut ratio = rule(SchemaType::Float);
    ratio.min = Some(float(-1.5));
    let mut list = rule(SchemaType::List);
    list.min_length = Some(0);
    list.max_length = Some(3);
    list.items = Some(Box::new(rule(SchemaType::Any)));
    let root = object(vec![
        ("name", name),
        ("count", count),
        ("ratio", ratio),
        ("list", list),
        ("flag", rule(SchemaType::Boolean)),
        ("nothing", rule(SchemaType::Null)),
        ("nested", object(vec![("labels", rule(SchemaType::Object))])),
    ]);
    assert!(Schema::validate_schema_rule(&root).is_ok());
    let schema = Schema::new(root).unwrap();
    assert_eq!(schema.root.data_type, SchemaType::Object);
    let keys = schema.root.keys.as_ref().unwrap();
    assert!(keys.contains_key("name"));
    assert!(keys.contains_key("count"));
    assert!(!keys.contains_key("absent"));
    assert_eq!(keys.len(), 7);
    let name_rule = keys.get("name").unwrap();
    assert_eq!(name_rule.data_type, SchemaType::String);
    assert!(name_rule.required);
    let count_rule = keys.get("count").unwrap();
    assert_eq!(count_rule.data_type, SchemaType::Integer);
    assert!(!count_rule.required);
    assert!(count_rule.min.is_some());
}

#[test]
fn string_with_numeric_bounds_is_refused() {
    let mut r = rule(SchemaType::String);
    r.min = Some(number(5));
    r.max = Some(number(10));
    assert_eq!(
        schema_message(&r),
        "'min' and 'max' are only valid for numeric types, not 'string' for field of type String"
    );
}

#[test]
fn object_with_items_is_refused() {
    let mut r = rule(SchemaType::Object);
    r.items = Some(Box::new(rule(SchemaType::String)));
    r.description = Some("root".to_string());
    assert_eq!(
        schema_message(&r),
        "'items' is only valid for type 'list', not 'object' for field 'root'"
    );
}

#[test]
fn misplaced_fields_by_type() {
    let with = |t: SchemaType, set: &dyn Fn(&mut SchemaRule)| {
        let mut r = rule(t);
        set(&mut r);
        schema_message(&r)
    };
    let keys = |r: &mut SchemaRule| r.keys = Some(KeyRules::new());
    let items = |r: &mut SchemaRule| r.items = Some(Box::new(rule(SchemaType::Any)));
    let lengths = |r: &mut SchemaRule| r.max_length = Some(1);
    let pattern = |r: &mut SchemaRule| r.pattern = Some("a".to_string());
    let range = |r: &mut SchemaRule| r.min = Some(number(1));
    let listing = |r: &mut SchemaRule| r.enum_values = Some(Vec::new());

    assert_eq!(
        with(SchemaType::Object, &lengths),
        "'min_length' and 'max_length' are not valid for type 'object' for field of type Object"
    );
    assert_eq!(
        with(SchemaType::Object, &pattern),
        "'pattern' is only valid for type 'string', not 'object' for field of type Object"
    );
    assert_eq!(
        with(SchemaType::Object, &range),
        "'min' and 'max' are only valid for numeric types, not 'object' for field of type Object"
    );
    assert_eq!(
        with(SchemaType::List, &keys),
        "'keys' is only valid for type 'object', not 'list' for field of type List"
    );
    assert_eq!(
        with(SchemaType::List, &pattern),
        "'pattern' is only valid for type 'string', not 'list' for field of type List"
    );
    assert_eq!(
        with(SchemaType::List, &range),
        "'min' and 'max' are only valid for numeric types, not 'list' for field of type List"
    );
    assert_eq!(
        with(SchemaType::String, &keys),
        "'keys' is only valid for type 'object', not 'string' for field of type String"
    );
    assert_eq!(
        with(SchemaType::String, &items),
        "'items' is only valid for type 'list', not 'string' for field of type String"
    );
    assert_eq!(
        with(SchemaType::Integer, &keys),
        "'keys' is only valid for type 'object', not numeric type for field of type Integer"
    );
    assert_eq!(
        with(SchemaType::Float, &items),
        "'items' is only valid for type 'list', not numeric type for field of type Float"
    );
    assert_eq!(
        with(SchemaType::Integer, &lengths),
        "'min_length' and 'max_length' are only valid for type 'string' or 'list', not numeric type for field of type Integer"
    );
    assert_eq!(
        with(SchemaType::Float, &pattern),
        "'pattern' is only valid for type 'string', not numeric type for field of type Float"
    );
    assert_eq!(
        with(SchemaType::Boolean, &keys),
        "'keys' is only valid for type 'object' for field of type Boolean"
    );
    assert_eq!(
        with(SchemaType::Null, &items),
        "'items' is only valid for type 'list' for field of type Null"
    );
    assert_eq!(
        with(SchemaType::Boolean, &lengths),
        "'min_length' and 'max_length' are only valid for type 'string' or 'list' for field of type Boolean"
    );
    assert_eq!(
        with(SchemaType::Null, &pattern),
        "'pattern' is only valid for type 'string' for field of type Null"
    );
    assert_eq!(
        with(SchemaType::Boolean, &range),
        "'min' and 'max' are only valid for numeric types for field of type Boolean"
    );
    assert_eq!(
        with(SchemaType::Any, &keys),
        "'keys' is only valid for type 'object', not 'any' for field of type Any"
    );
    assert_eq!(
        with(SchemaType::Any, &items),
        "'items' is only valid for type 'list', not 'any' for field of type Any"
    );
    assert_eq!(
        with(SchemaType::Any, &lengths),
        "'min_length' and 'max_length' are only valid for specific types, not 'any' for field of type Any"
    );
    assert_eq!(
        with(SchemaType::Any, &pattern),
        "'pattern' is only valid for type 'string', not 'any' for field of type Any"
    );
    assert_eq!(
        with(SchemaType::Any, &range),
        "'min' and 'max' are only valid for numeric types, not 'any' for field of type Any"
    );
    assert_eq!(
        with(SchemaType::Boolean, &listing),
        "'enum' is only valid for type 'string' and numeric types for field of type Boolean"
    );
    assert_eq!(
        with(SchemaType::Object, &listing),
        "'enum' is only valid for type 'string' and numeric types, not 'object' for field of type Object"
    );
    assert_eq!(
        with(SchemaType::List, &listing),
        "'enum' is only valid for type 'string' and numeric types, not 'list' for field of type List"
    );
}

#[test]
fn first_misplaced_field_wins() {
    let mut r = rule(SchemaType::Any);
    r.pattern = Some("a".to_string());
    r.min = Some(number(1));
    r.items = Some(Box::new(rule(SchemaType::Any)));
    assert_eq!(
        schema_message(&r),
        "'items' is only valid for type 'list', not 'any' for field of type Any"
    );
}

#[test]
fn inverted_lengths_are_refused() {
    for t in [SchemaType::String, SchemaType::List] {
        let mut r = rule(t);
        r.min_length = Some(3);
        r.max_length = Some(2);
        r.description = Some("tags".to_string());
        assert_eq!(
            schema_message(&r),
            "'min_length' cannot be greater than 'max_length' for field 'tags'"
        );
        r.max_length = Some(3);
        assert!(Schema::validate_schema_rule(&r).is_ok());
    }
}

#[test]
fn inverted_range_is_refused() {
    let mut r = rule(SchemaType::Integer);
    r.min = Some(number(10));
    r.max = Some(number(5));
    assert_eq!(
        schema_message(&r),
        "'min' (10) cannot be greater than 'max' (5) for field of type Integer"
    );
    let mut f = rule(SchemaType::Float);
    f.min = Some(float(0.5));
    f.max = Some(float(0.25));
    assert_eq!(
        schema_message(&f),
        "'min' (0.5) cannot be greater than 'max' (0.25) for field of type Float"
    );
    f.max = Some(float(0.5));
    assert!(Schema::validate_schema_rule(&f).is_ok());
    f.max = Some(float(f64::NAN));
    assert!(Schema::validate_schema_rule(&f).is_ok());
}

#[test]
fn bounds_that_are_no_numbers_are_refused_when_both_are_given() {
    let mut r = rule(SchemaType::Integer);
    r.min = Some(ConfigValue::String("low".to_string()));
    r.max = Some(number(5));
    assert_eq!(
        schema_message(&r),
        "Non-numeric values used for 'min'/'max' in schema for field of type Integer - min: String(\"low\"), max: Number(5)"
    );
    r.max = None;
    assert!(Schema::validate_schema_rule(&r).is_ok());
}

#[test]
fn pattern_that_does_not_compile_is_refused() {
    let mut r = rule(SchemaType::String);
    r.pattern = Some("*[invalid regex".to_string());
    let result = Schema::validate_schema_rule(&r);
    assert!(result.is_err());
    match result {
        Err(ConfigGuardError::Pattern(message)) => {
            let head = "Invalid regex pattern '*[invalid regex' for field of type String: ";
            assert!(message.starts_with(head), "{}", message);
            assert!(message.len() > head.len());
        }
        other => panic!("Expected a pattern failure, got {:?}", other),
    }
    match Schema::new(r) {
        Err(ConfigGuardError::Schema(message)) => {
            assert!(
                message.starts_with("Invalid pattern: Invalid regex pattern '*[invalid regex'"),
                "{}",
                message
            );
        }
        other => panic!("Expected a schema failure, got {:?}", other),
    }
}

#[test]
fn faults_below_are_reported_from_above() {
    let mut bad = rule(SchemaType::String);
    bad.min = Some(number(1));
    let root = object(vec![("fine", rule(SchemaType::Integer)), ("port", bad)]);
    assert_eq!(
        schema_message(&root),
        "Invalid schema rule for key 'port': Schema error: 'min' and 'max' are only valid for numeric types, not 'string' for field of type String"
    );
    let mut element = rule(SchemaType::Boolean);
    element.pattern = Some("x".to_string());
    let mut list = rule(SchemaType::List);
    list.items = Some(Box::new(element));
    list.description = Some("flags".to_string());
    assert_eq!(
        schema_message(&list),
        "Invalid schema rule for list items for field 'flags': Schema error: 'pattern' is only valid for type 'string' for field of type Boolean"
    );
    let mut pattern = rule(SchemaType::String);
    pattern.pattern = Some("(".to_string());
    let root = object(vec![("code", pattern)]);
    let message = schema_message(&root);
    assert!(
        message.starts_with("Invalid schema rule for key 'code': Invalid pattern: Invalid regex pattern '(' "),
        "{}",
        message
    );
}

#[test]
fn fields_are_checked_before_the_object_itself() {
    let mut bad = rule(SchemaType::Null);
    bad.max_length = Some(1);
    let mut root = object(vec![("k", bad)]);
    root.pattern = Some("x".to_string());
    assert!(schema_message(&root).starts_with("Invalid schema rule for key 'k': "));
}

#[test]
fn schema_new_wraps_the_fault_as_a_schema_failure() {
    let mut r = rule(SchemaType::Boolean);
    r.keys = Some(KeyRules::new());
    match Schema::new(r) {
        Err(ConfigGuardError::Schema(message)) => assert_eq!(
            message,
            "Schema error: 'keys' is only valid for type 'object' for field of type Boolean"
        ),
        other => panic!("Expected a schema failure, got {:?}", other),
    }
}

#[test]
fn key_rules_keep_declaration_order_and_replace_in_place() {
    let mut keys = KeyRules::new();
    assert!(keys.is_empty());
    assert!(keys.insert("a".to_string(), rule(SchemaType::String)).is_none());
    assert!(keys.insert("b".to_string(), rule(SchemaType::Integer)).is_none());
    assert!(keys.insert("c".to_string(), rule(SchemaType::Null)).is_none());
    let replaced = keys.insert("b".to_string(), rule(SchemaType::Float));
    assert_eq!(replaced.unwrap().data_type, SchemaType::Integer);
    assert_eq!(keys.len(), 3);
    assert!(!keys.is_empty());
    assert_eq!(keys.name_at(0), "a");
    assert_eq!(keys.name_at(1), "b");
    assert_eq!(keys.name_at(2), "c");
    assert_eq!(keys.rule_at(1).data_type, SchemaType::Float);
    assert_eq!(keys.get("b").unwrap().data_type, SchemaType::Float);
    assert!(keys.get("d").is_none());
    assert!(keys.contains_key("c"));
    assert!(!keys.contains_key(""));
}

#[test]
fn type_labels() {
    let labels: Vec<String> = [
        SchemaType::String,
        SchemaType::Integer,
        SchemaType::Float,
        SchemaType::Boolean,
        SchemaType::Object,
        SchemaType::List,
        SchemaType::Any,
        SchemaType::Null,
    ]
    .iter()
    .map(|t| t.label())
    .collect();
    assert_eq!(
        labels,
        vec!["String", "Integer", "Float", "Boolean", "Object", "List", "Any", "Null"]
    );
}

#[test]
fn refused_schema_source_names_the_file_and_the_types() {
    match parse_failure("schema.yaml", "mapping values are not allowed") {
        ConfigGuardError::Schema(message) => assert_eq!(
            message,
            "Failed to parse schema YAML from schema.yaml: mapping values are not allowed"
        ),
        other => panic!("unexpected {:?}", other),
    }
    match parse_failure("s.yml", "type: invalid type: x") {
        ConfigGuardError::Schema(message) => assert_eq!(
            message,
            "Failed to parse schema YAML from s.yml: type: invalid type: x. Check that all types are valid (string, integer, float, boolean, object, list, any, null)."
        ),
        other => panic!("unexpected {:?}", other),
    }
}
