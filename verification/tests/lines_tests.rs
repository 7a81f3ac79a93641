use configguard::config::ConfigFormat;
use configguard::lines::{
    char_is_space, find_line, find_line_numbers, line_declares, same_chars,
    split_lines, strip, text_after_last, text_before, Strip,
};
use configguard::text::chars_of;
use configguard::validation::ValidationError;

fn chars(s: &str) -> Vec<char> {
    s.chars().collect()
}

fn text(v: &[char]) -> String {
    v.iter().collect()
}

fn at(path: &str, line: Option<usize>) -> ValidationError {
    ValidationError {
        path: path.to_string(),
        message: "m".to_string(),
        expected: "e".to_string(),
        actual: "a".to_string(),
        description: Some("d".to_string()),
        line,
    }
}

fn lines_found(content: &str, format: ConfigFormat, paths: &[&str]) -> Vec<Option<usize>> {
    let mut errors: Vec<ValidationError> = paths.iter().map(|p| at(p, None)).collect();
    find_line_numbers(content, &mut errors, format);
    assert_eq!(errors.len(), paths.len());
    for (e, p) in errors.iter().zip(paths) {
        assert_eq!(&e.path, p);
        assert_eq!(e.message, "m");
        assert_eq!(e.expected, "e");
        assert_eq!(e.actual, "a");
        assert_eq!(e.description.as_deref(), Some("d"));
    }
    errors.iter().map(|e| e.line).collect()
}

#[test]
fn white_space_is_what_the_standard_library_calls_white_space() {
    for code in 0u32..0x11_0000 {
        if let Some(c) = char::from_u32(code) {
            assert_eq!(char_is_space(c), c.is_whitespace(), "U+{:04X}", code);
        }
    }
}

#[test]
fn chars_of_gives_every_character() {
    assert_eq!(chars_of("aä€😀\n"), chars("aä€😀\n"));
    assert_eq!(chars_of(""), Vec::<char>::new());
}

#[test]
fn strip_agrees_with_trim() {
    for s in ["", " ", "a", "  a b \t\r\n", "\u{3000}x\u{a0}", "\n\n", " \"q\" "] {
        assert_eq!(text(&strip(Strip::Spaces, &chars(s))), s.trim());
        assert_eq!(text(&strip(Strip::Quotes, &chars(s))), s.trim_matches('"'));
    }
    assert_eq!(text(&strip(Strip::Quotes, &chars("\"\"key\"\""))), "key");
    assert_eq!(text(&strip(Strip::Quotes, &chars("\"\""))), "");
}

#[test]
fn before_and_after_agree_with_split() {
    for s in ["", "a", "a:b", ":a", "a:", "a:b:c", "::", ".x.y[0].z", "no dots"] {
        assert_eq!(text(&text_before(&chars(s), ':')), s.split(':').next().unwrap());
        assert_eq!(text(&text_after_last(&chars(s), '.')), s.split('.').last().unwrap());
    }
}

#[test]
fn same_chars_compares_contents() {
    assert!(same_chars(&chars("abc"), &chars("abc")));
    assert!(same_chars(&chars(""), &chars("")));
    assert!(!same_chars(&chars("abc"), &chars("abd")));
    assert!(!same_chars(&chars("abc"), &chars("ab")));
}

#[test]
fn split_lines_cuts_at_line_feeds() {
    let lines: Vec<String> = split_lines(&chars("a\nb\r\n\nc")).iter().map(|l| text(l)).collect();
    assert_eq!(lines, vec!["a", "b\r", "", "c"]);
    let lines: Vec<String> = split_lines(&chars("a\n")).iter().map(|l| text(l)).collect();
    assert_eq!(lines, vec!["a", ""]);
    let lines: Vec<String> = split_lines(&chars("")).iter().map(|l| text(l)).collect();
    assert_eq!(lines, vec![""]);
}

#[test]
fn yaml_lines_declare_their_key() {
    let yaml = ConfigFormat::Yaml;
    assert!(line_declares(&chars("  name: value"), yaml, &chars("name")));
    assert!(line_declares(&chars("name:"), yaml, &chars("name")));
    assert!(line_declares(&chars("\tspaced key : v\r"), yaml, &chars("spaced key")));
    assert!(line_declares(&chars("plain"), yaml, &chars("plain")));
    assert!(!line_declares(&chars("name: value"), yaml, &chars("value")));
    assert!(!line_declares(&chars("# name: value"), yaml, &chars("# name")));
    assert!(!line_declares(&chars("#name"), yaml, &chars("#name")));
    assert!(!line_declares(&chars(""), yaml, &chars("")));
    assert!(!line_declares(&chars("   "), yaml, &chars("")));
    assert!(!line_declares(&chars(": v"), yaml, &chars("")));
    assert!(line_declares(&chars("items[0]: v"), yaml, &chars("items[0]")));
    assert!(line_declares(&chars("items[0]: v"), yaml, &chars("items")));
    assert!(!line_declares(&chars("items[0]x: v"), yaml, &chars("items")));
    assert!(line_declares(&chars("[0]: v"), yaml, &chars("")));
    assert!(line_declares(&chars("- name: web"), yaml, &chars("- name")));
    assert!(!line_declares(&chars("- name: web"), yaml, &chars("name")));
}

#[test]
fn json_lines_declare_their_key() {
    let json = ConfigFormat::Json;
    assert!(line_declares(&chars("  \"name\": \"value\","), json, &chars("name")));
    assert!(line_declares(&chars("\"a b\" : 1"), json, &chars("a b")));
    assert!(line_declares(&chars("name: \"v\""), json, &chars("name")));
    assert!(!line_declares(&chars("name: 1"), json, &chars("name")));
    assert!(!line_declares(&chars("\"name\""), json, &chars("name")));
    assert!(!line_declares(&chars("\"\": 1"), json, &chars("")));
    assert!(!line_declares(&chars("{"), json, &chars("{")));
    assert!(line_declares(&chars("{\"a\": 1}"), json, &chars("{\"a")));
    assert!(line_declares(&chars("\" a \": 1"), json, &chars(" a ")));
}

#[test]
fn first_declaring_line_wins() {
    let content = "name: a\nspec:\n  name: b\n  port: 1\n";
    assert_eq!(
        lines_found(content, ConfigFormat::Yaml, &[".name", ".spec.name", ".spec.port", ".absent", ""]),
        vec![Some(1), Some(1), Some(4), None, None]
    );
}

#[test]
fn indices_are_stripped_from_the_last_field() {
    let content = "servers:\n  - host: a\nports: [1, 2]\n";
    assert_eq!(
        lines_found(content, ConfigFormat::Yaml, &[".ports[1]", ".servers[0].host", ".servers[0]"]),
        vec![Some(3), None, Some(1)]
    );
}

#[test]
fn json_keys_are_found_between_quotes() {
    let content = "{\n  \"age\": 150,\n  \"tags\": [\n    \"a\"\n  ]\n}";
    assert_eq!(
        lines_found(content, ConfigFormat::Json, &[".age", ".tags[0]", ".none"]),
        vec![Some(2), Some(3), None]
    );
}

#[test]
fn a_line_that_is_not_found_keeps_what_was_there() {
    let mut errors = vec![at(".known", Some(9)), at(".unknown", Some(7)), at(".unknown", None)];
    find_line_numbers("known: 1", &mut errors, ConfigFormat::Yaml);
    assert_eq!(errors[0].line, Some(1));
    assert_eq!(errors[1].line, Some(7));
    assert_eq!(errors[2].line, None);
}

#[test]
fn find_line_counts_from_one() {
    let lines = split_lines(&chars("a: 1\nb: 2\nc: 3"));
    assert_eq!(find_line(&lines, ConfigFormat::Yaml, ".c"), Some(3));
    assert_eq!(find_line(&lines, ConfigFormat::Yaml, ".a"), Some(1));
    assert_eq!(find_line(&lines, ConfigFormat::Yaml, "a"), Some(1));
    assert_eq!(find_line(&lines, ConfigFormat::Yaml, ".d"), None);
    assert_eq!(find_line(&lines, ConfigFormat::Json, ".a"), None);
}
