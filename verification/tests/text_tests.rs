use configguard::number::Number;
use configguard::text::{
    count_text, decimal_text, join3, same_text, signed_decimal_text, text_contains,
};
use configguard::value::{debug_list, debug_string, find_key, value_type_name, ConfigValue};

fn text(s: &str) -> ConfigValue {
    ConfigValue::String(s.to_string())
}

fn float(f: f64) -> ConfigValue {
    ConfigValue::Number(Number::Float {
        bits: f.to_bits(),
        text: format!("{}", f),
        written: format!("{:?}", f),
    })
}

#[test]
fn decimal_agrees_with_display() {
    for n in [0u64, 1, 9, 10, 11, 99, 100, 101, 12345, u64::MAX, 1 << 63, 1_000_000_007] {
        assert_eq!(decimal_text(n), n.to_string());
    }
    for n in [0usize, 7, 10, 4096, usize::MAX] {
        assert_eq!(count_text(n), n.to_string());
    }
    for i in [0i64, 1, -1, 10, -10, i64::MAX, i64::MIN, -9_000_000_000] {
        assert_eq!(signed_decimal_text(i), i.to_string());
    }
}

#[test]
fn joining_and_comparing_text() {
    assert_eq!(join3("a", "b", "c"), "abc");
    assert_eq!(join3("", ".", "name"), ".name");
    assert_eq!(join3("p", ".", ""), "p.");
    assert!(same_text("yaml", "yaml"));
    assert!(!same_text("yaml", "yml"));
    assert!(same_text("", ""));
}

#[test]
fn debug_rendering_of_values() {
    assert_eq!(debug_string(&ConfigValue::Null), "Null");
    assert_eq!(debug_string(&ConfigValue::Bool(true)), "Bool(true)");
    assert_eq!(debug_string(&ConfigValue::Bool(false)), "Bool(false)");
    assert_eq!(debug_string(&ConfigValue::Number(Number::PosInt(7))), "Number(7)");
    assert_eq!(debug_string(&ConfigValue::Number(Number::NegInt(-7))), "Number(-7)");
    assert_eq!(debug_string(&float(1.5)), "Number(1.5)");
    assert_eq!(debug_string(&text("red")), "String(\"red\")");
    assert_eq!(debug_string(&text("a\"b\\c\n")), "String(\"a\\\"b\\\\c\\n\")");
    assert_eq!(debug_string(&ConfigValue::Sequence(vec![])), "Sequence []");
    assert_eq!(
        debug_string(&ConfigValue::Sequence(vec![text("a"), ConfigValue::Null, ConfigValue::Bool(true)])),
        "Sequence [String(\"a\"), Null, Bool(true)]"
    );
    assert_eq!(debug_string(&ConfigValue::Mapping(vec![])), "Mapping {}");
    let mapping = ConfigValue::Mapping(vec![
        (text("k"), ConfigValue::Number(Number::PosInt(1))),
        (ConfigValue::Bool(true), text("v")),
        (ConfigValue::Number(Number::PosInt(2)), ConfigValue::Null),
        (ConfigValue::Null, ConfigValue::Sequence(vec![text("x")])),
    ]);
    assert_eq!(
        debug_string(&mapping),
        "Mapping {\"k\": Number(1), true: String(\"v\"), 2: Null, Null: Sequence [String(\"x\")]}"
    );
    assert_eq!(debug_list(&vec![text("red"), text("green")]), "String(\"red\"), String(\"green\")");
    assert_eq!(debug_list(&Vec::new()), "");
    let tagged = ConfigValue::Tagged("!t".to_string(), Box::new(text("a")));
    assert_eq!(debug_string(&tagged), "TaggedValue { tag: !t, value: String(\"a\") }");
    assert_eq!(value_type_name(&tagged), "unknown");
}

#[test]
fn names_of_value_types() {
    assert_eq!(value_type_name(&text("s")), "string");
    assert_eq!(value_type_name(&ConfigValue::Number(Number::PosInt(1))), "integer");
    assert_eq!(value_type_name(&float(1.0)), "float");
    assert_eq!(value_type_name(&ConfigValue::Bool(true)), "boolean");
    assert_eq!(value_type_name(&ConfigValue::Mapping(vec![])), "object");
    assert_eq!(value_type_name(&ConfigValue::Sequence(vec![])), "list");
    assert_eq!(value_type_name(&ConfigValue::Null), "null");
}

#[test]
fn first_entry_under_a_key_is_found() {
    let entries = vec![
        (ConfigValue::Null, text("skipped")),
        (text("a"), text("first")),
        (text("b"), text("other")),
        (text("a"), text("second")),
    ];
    assert_eq!(find_key(&entries, "a"), Some(1));
    assert_eq!(find_key(&entries, "b"), Some(2));
    assert_eq!(find_key(&entries, "c"), None);
    let value = ConfigValue::Mapping(entries);
    assert!(matches!(value.get("a"), Some(ConfigValue::String(s)) if s == "first"));
    assert!(value.get("c").is_none());
    assert!(value.contains_key("b"));
    assert!(!value.contains_key("Null"));
    assert!(!text("a").contains_key("a"));
    assert!(text("a").get("a").is_none());
}

#[test]
fn containing_agrees_with_the_standard_library() {
    let hays = ["", "a", "invalid type: x", "an invalid typ", "xinvalid type", "aaa", "abab"];
    let needles = ["", "a", "invalid type", "ab", "ba", "aaaa", "bab"];
    for h in hays {
        for n in needles {
            assert_eq!(text_contains(h, n), h.contains(n), "{:?} in {:?}", n, h);
        }
    }
}
