//! The validation engine: a single walk over a document and a schema in lock-step
//! that collects every violation.

use crate::config::Config;
use crate::error::ConfigGuardError;
use crate::lines::{annotated_all, find_line_numbers};
use crate::schema::Schema;
use crate::number::{bits_is_infinite, bits_is_nan, bits_is_negative, bits_lt, bits_near};
use crate::number::{float_lt, float_near, is_infinite, is_nan, is_negative};
use crate::pattern::{pattern_error, pattern_matches, search};
use crate::schema::{type_label, KeyRules, SchemaRule, SchemaType};
use crate::text::{count_text, decimal, join3};
use crate::value::{debug_list, debug_string, debug_text, find_key, has_key, items_text};
use crate::value::{is_key, key_position, kind_name, value_type_name, ConfigValue};
use vstd::prelude::*;

verus! {

/// One violation found in a document.
#[derive(Debug, Clone)]
pub struct ValidationError {
    /// Where in the document: `.field` for an object member, `[i]` for a list element.
    pub path: String,
    /// The kind of violation, in fixed words.
    pub message: String,
    /// What the schema asked for.
    pub expected: String,
    /// What the document holds.
    pub actual: String,
    /// The description of the rule that was violated, where it has one.
    pub description: Option<String>,
    /// The line of the source text, where the line mapper found one.
    pub line: Option<usize>,
}

/// A violation with its texts as sequences of characters.
pub struct ErrorView {
    pub path: Seq<char>,
    pub message: Seq<char>,
    pub expected: Seq<char>,
    pub actual: Seq<char>,
    pub description: Option<Seq<char>>,
    pub line: Option<usize>,
}

/// The text of an optional string.
pub open spec fn text_of(s: Option<String>) -> Option<Seq<char>> {
    match s {
        Some(t) => Some(t@),
        None => None,
    }
}

impl View for ValidationError {
    type V = ErrorView;

    open spec fn view(&self) -> ErrorView {
        ErrorView {
            path: self.path@,
            message: self.message@,
            expected: self.expected@,
            actual: self.actual@,
            description: text_of(self.description),
            line: self.line,
        }
    }
}

impl ValidationError {
    /// A copy of the violation.
    pub fn duplicate(&self) -> (r: ValidationError)
        ensures
            r@ == self@,
    {
        ValidationError {
            path: self.path.clone(),
            message: self.message.clone(),
            expected: self.expected.clone(),
            actual: self.actual.clone(),
            description: match &self.description {
                Some(d) => Some(d.clone()),
                None => None,
            },
            line: self.line,
        }
    }
}

/// The views of a list of violations, in order.
pub open spec fn views(errors: Seq<ValidationError>) -> Seq<ErrorView> {
    errors.map_values(|e: ValidationError| e@)
}

/// The outcome of validating one document.
#[derive(Debug, Clone)]
pub enum ValidationResult {
    /// No violation was found.
    Valid,
    /// The violations, in the order of the walk.
    Invalid(Vec<ValidationError>),
}

/// A violation without a line.
pub open spec fn violation(
    path: Seq<char>,
    message: Seq<char>,
    expected: Seq<char>,
    actual: Seq<char>,
    description: Option<String>,
) -> ErrorView {
    ErrorView { path, message, expected, actual, description: text_of(description), line: None }
}

/// What a walk over a part of the document yields: the violations found, and,
/// where the walk met a pattern that does not compile, the message of that
/// failure. The walk ends at such a pattern.
pub struct Walk {
    pub errors: Seq<ErrorView>,
    pub fault: Option<Seq<char>>,
}

/// A walk that found nothing.
pub open spec fn quiet() -> Walk {
    Walk { errors: Seq::empty(), fault: None }
}

/// A walk that found the given violations.
pub open spec fn found(errors: Seq<ErrorView>) -> Walk {
    Walk { errors, fault: None }
}

/// One walk after another: the second is not made where the first ended at a
/// pattern that does not compile.
pub open spec fn followed_by(first: Walk, second: Walk) -> Walk {
    if first.fault is Some {
        first
    } else {
        Walk { errors: first.errors + second.errors, fault: second.fault }
    }
}

/// Whether the runtime type of a value is the one that a rule asks for. An
/// integer rule takes only numbers written as integers, a float rule only
/// numbers written as floats.
pub open spec fn type_matches(value: ConfigValue, t: SchemaType) -> bool {
    match t {
        SchemaType::String => value is String,
        SchemaType::Integer => value matches ConfigValue::Number(n) && n.is_integer(),
        SchemaType::Float => value matches ConfigValue::Number(n) && !n.is_integer(),
        SchemaType::Boolean => value is Bool,
        SchemaType::Object => value is Mapping,
        SchemaType::List => value is Sequence,
        SchemaType::Null => value is Null,
        SchemaType::Any => true,
    }
}

/// The path of an object's field.
pub open spec fn field_path(path: Seq<char>, name: Seq<char>) -> Seq<char> {
    path + "."@ + name
}

/// The path of a list's element.
pub open spec fn item_path(path: Seq<char>, index: nat) -> Seq<char> {
    path + "["@ + decimal(index) + "]"@
}

/// The complaint about a value of the wrong type: the type that the rule asks
/// for, and the type that the value has.
pub open spec fn mismatch(value: ConfigValue, rule: SchemaRule, path: Seq<char>) -> ErrorView {
    violation(
        path,
        "Type mismatch"@,
        type_label(rule.data_type),
        kind_name(value),
        rule.description,
    )
}

/// The violations of the length bounds of a string or a list: `noun` names what
/// is counted, `what` what is too short or too long.
pub open spec fn length_errors(
    rule: SchemaRule,
    path: Seq<char>,
    len: nat,
    what: Seq<char>,
    noun: Seq<char>,
) -> Seq<ErrorView> {
    let short = match rule.min_length {
        Some(least) => if len < least {
            seq![
                violation(
                    path,
                    what + " too short"@,
                    "At least "@ + decimal(least as nat) + " "@ + noun,
                    decimal(len) + " "@ + noun,
                    rule.description,
                ),
            ]
        } else {
            Seq::empty()
        },
        None => Seq::empty(),
    };
    let long = match rule.max_length {
        Some(most) => if len > most {
            seq![
                violation(
                    path,
                    what + " too long"@,
                    "At most "@ + decimal(most as nat) + " "@ + noun,
                    decimal(len) + " "@ + noun,
                    rule.description,
                ),
            ]
        } else {
            Seq::empty()
        },
        None => Seq::empty(),
    };
    short + long
}

/// Whether a string is one of the string entries of an enumeration.
pub open spec fn listed_text(values: Seq<ConfigValue>, s: Seq<char>) -> bool {
    exists|i: int| 0 <= i < values.len() && is_key(#[trigger] values[i], s)
}

/// The complaint about a value that an enumeration does not list.
pub open spec fn not_listed(
    rule: SchemaRule,
    path: Seq<char>,
    values: Seq<ConfigValue>,
    actual: Seq<char>,
) -> ErrorView {
    violation(
        path,
        "Value not in allowed set"@,
        "One of: "@ + items_text(values, values.len()),
        actual,
        rule.description,
    )
}

/// The message of the failure that ends a walk at a pattern that does not compile.
pub open spec fn pattern_failure(message: Seq<char>) -> Seq<char> {
    "Invalid pattern in schema: "@ + message
}

/// What searching a text for a pattern comes to: whether the pattern matches,
/// or the message with which it fails to compile.
pub open spec fn pattern_answer(pattern: Seq<char>, text: Seq<char>) -> Result<bool, Seq<char>> {
    match pattern_error(pattern) {
        Some(message) => Err(message),
        None => Ok(pattern_matches(pattern, text)),
    }
}

/// What the outcome of a search means for a string under a rule with a
/// pattern: nothing where the pattern matched, the complaint where it did not,
/// and the end of the walk where the pattern did not compile.
pub open spec fn search_outcome(
    rule: SchemaRule,
    path: Seq<char>,
    pattern: Seq<char>,
    s: Seq<char>,
    outcome: Result<bool, Seq<char>>,
) -> Walk {
    match outcome {
        Err(message) => Walk { errors: Seq::empty(), fault: Some(pattern_failure(message)) },
        Ok(matched) => if matched {
            quiet()
        } else {
            found(
                seq![
                    violation(
                        path,
                        "String doesn't match pattern"@,
                        "Pattern: "@ + pattern,
                        s,
                        rule.description,
                    ),
                ],
            )
        },
    }
}

/// The walk over a string under a string rule: length bounds by the number of
/// characters, then the pattern, then the enumeration.
pub open spec fn walk_string(s: Seq<char>, rule: SchemaRule, path: Seq<char>) -> Walk {
    let lengths = found(length_errors(rule, path, s.len(), "String"@, "characters"@));
    let matching = match rule.pattern {
        Some(p) => search_outcome(rule, path, p@, s, pattern_answer(p@, s)),
        None => quiet(),
    };
    let listing = match rule.enum_values {
        Some(values) => if listed_text(values@, s) {
            quiet()
        } else {
            found(seq![not_listed(rule, path, values@, s)])
        },
        None => quiet(),
    };
    followed_by(followed_by(lengths, matching), listing)
}

/// The outcome of a search with its message as a sequence of characters.
pub open spec fn outcome_view(outcome: Result<bool, String>) -> Result<bool, Seq<char>> {
    match outcome {
        Ok(matched) => Ok(matched),
        Err(message) => Err(message@),
    }
}

/// The binary64 pattern of a bound, where the bound is a number.
pub open spec fn bound_bits(bound: Option<ConfigValue>) -> Option<u64> {
    match bound {
        Some(ConfigValue::Number(n)) => Some(n.pattern()),
        _ => None,
    }
}

/// The text of a bound that is a number.
pub open spec fn bound_text(bound: Option<ConfigValue>) -> Seq<char> {
    match bound {
        Some(ConfigValue::Number(n)) => n.shown(),
        _ => Seq::empty(),
    }
}

/// The position of the first entry at or after `from` that is no number, or the
/// number of entries.
pub open spec fn first_other(values: Seq<ConfigValue>, from: nat) -> nat
    decreases values.len() - from,
{
    if from < values.len() && values[from as int] is Number {
        first_other(values, from + 1)
    } else {
        from
    }
}

/// Whether an entry is a number within the tolerance of the comparison.
pub open spec fn is_close(entry: ConfigValue, bits: u64) -> bool {
    match entry {
        ConfigValue::Number(e) => float_near(bits, e.pattern()),
        _ => false,
    }
}

/// Whether an enumeration lists a number, within the tolerance of the comparison.
pub open spec fn lists_number(values: Seq<ConfigValue>, bits: u64) -> bool {
    exists|i: int| 0 <= i < values.len() && is_close(#[trigger] values[i], bits)
}

/// The complaint about an entry of an enumeration that is no number.
pub open spec fn not_a_number(rule: SchemaRule, path: Seq<char>, entry: ConfigValue) -> ErrorView {
    violation(
        path,
        "Invalid enum value type"@,
        "Numeric value for numeric field"@,
        "Non-numeric value: "@ + debug_text(entry),
        rule.description,
    )
}

/// The violations of a number against an enumeration: a complaint about the
/// first entry that is no number, where there is one; else nothing where the
/// enumeration lists the number, and that it is not listed where it does not.
pub open spec fn listing_errors(
    rule: SchemaRule,
    path: Seq<char>,
    values: Seq<ConfigValue>,
    bits: u64,
    shown: Seq<char>,
) -> Seq<ErrorView> {
    let at = first_other(values, 0);
    if at < values.len() {
        seq![not_a_number(rule, path, values[at as int])]
    } else if lists_number(values, bits) {
        Seq::empty()
    } else {
        seq![not_listed(rule, path, values, shown)]
    }
}

/// The violation of one bound of a number: of the least value where `below`, else
/// of the greatest. A bound that is no number is passed over.
pub open spec fn bound_errors(
    rule: SchemaRule,
    path: Seq<char>,
    bits: u64,
    shown: Seq<char>,
    below: bool,
) -> Seq<ErrorView> {
    let bound = if below {
        rule.min
    } else {
        rule.max
    };
    match bound_bits(bound) {
        Some(limit) => if (if below {
            float_lt(bits, limit)
        } else {
            float_lt(limit, bits)
        }) {
            seq![
                violation(
                    path,
                    if below {
                        "Value too small"@
                    } else {
                        "Value too large"@
                    },
                    (if below {
                        "At least "@
                    } else {
                        "At most "@
                    }) + bound_text(bound),
                    shown,
                    rule.description,
                ),
            ]
        } else {
            Seq::empty()
        },
        None => Seq::empty(),
    }
}

/// The violations of a number under a numeric rule. A number that is not finite
/// is reported and not checked further. Bounds that are no numbers are passed over.
pub open spec fn number_errors(
    bits: u64,
    shown: Seq<char>,
    rule: SchemaRule,
    path: Seq<char>,
) -> Seq<ErrorView> {
    if is_nan(bits) {
        seq![
            violation(
                path,
                "Invalid numeric value"@,
                "A valid number"@,
                "NaN (Not a Number)"@,
                rule.description,
            ),
        ]
    } else if is_infinite(bits) {
        seq![
            violation(
                path,
                "Invalid numeric value"@,
                "A finite number"@,
                if is_negative(bits) {
                    "Negative infinity"@
                } else {
                    "Positive infinity"@
                },
                rule.description,
            ),
        ]
    } else {
        let low = bound_errors(rule, path, bits, shown, true);
        let high = bound_errors(rule, path, bits, shown, false);
        let listing = match rule.enum_values {
            Some(values) => listing_errors(rule, path, values@, bits, shown),
            None => Seq::empty(),
        };
        low + high + listing
    }
}

/// The complaint about a declared field: that a required field is missing, or
/// that a required object with declared fields is there but empty. An empty
/// object is complained about as a whole here, and field by field when its
/// entries are walked.
pub open spec fn declared_errors(
    entries: Seq<(ConfigValue, ConfigValue)>,
    name: Seq<char>,
    rule: SchemaRule,
    path: Seq<char>,
) -> Seq<ErrorView> {
    if !rule.required {
        Seq::empty()
    } else if !has_key(entries, name) {
        seq![
            violation(
                field_path(path, name),
                "Required key missing"@,
                "Key to be present"@,
                "Key is absent"@,
                rule.description,
            ),
        ]
    } else if rule.data_type == SchemaType::Object && (entries[key_position(
        entries,
        name,
    )].1 matches ConfigValue::Mapping(inner) && inner@.len() == 0) && (rule.keys matches Some(keys)
        && keys.entries().len() > 0) {
        seq![
            violation(
                field_path(path, name),
                "Required object is empty"@,
                "Object with required fields"@,
                "Empty object"@,
                rule.description,
            ),
        ]
    } else {
        Seq::empty()
    }
}

/// The complaints about the first `upto` declared fields, in declaration order.
pub open spec fn required_errors(
    entries: Seq<(ConfigValue, ConfigValue)>,
    declared: Seq<(String, SchemaRule)>,
    path: Seq<char>,
    upto: nat,
) -> Seq<ErrorView>
    decreases upto,
{
    if upto == 0 || upto > declared.len() {
        Seq::empty()
    } else {
        required_errors(entries, declared, path, (upto - 1) as nat) + declared_errors(
            entries,
            declared[upto - 1].0@,
            declared[upto - 1].1,
            path,
        )
    }
}

/// The complaint about a key that has no rule.
pub open spec fn unknown_key(path: Seq<char>, name: Seq<char>) -> ErrorView {
    violation(
        field_path(path, name),
        "Unknown key"@,
        "Key defined in schema"@,
        "Undefined key"@,
        None,
    )
}

/// The walk over a node: a type mismatch is reported alone and ends the walk
/// over this node; else the checks of the rule's type are made. `strict` says
/// that unknown keys are refused whatever the rule allows.
pub open spec fn walk_node(
    value: ConfigValue,
    rule: SchemaRule,
    path: Seq<char>,
    strict: bool,
) -> Walk
    decreases value, 0nat,
{
    if !type_matches(value, rule.data_type) {
        found(seq![mismatch(value, rule, path)])
    } else {
        match rule.data_type {
            SchemaType::Object => match value {
                ConfigValue::Mapping(entries) => walk_object(
                    entries@,
                    rule,
                    path,
                    !strict && rule.allow_unknown_keys,
                ),
                _ => quiet(),
            },
            SchemaType::List => match value {
                ConfigValue::Sequence(items) => walk_list(items@, rule, path),
                _ => quiet(),
            },
            SchemaType::String => match value {
                ConfigValue::String(s) => walk_string(s@, rule, path),
                _ => quiet(),
            },
            SchemaType::Integer | SchemaType::Float => match value {
                ConfigValue::Number(n) => found(number_errors(n.pattern(), n.shown(), rule, path)),
                _ => quiet(),
            },
            _ => quiet(),
        }
    }
}

/// The rule that stands under a name among the declared fields, if any. A rule
/// without declared fields has a rule for no name.
pub open spec fn rule_for(keys: Option<KeyRules>, name: Seq<char>) -> Option<SchemaRule> {
    match keys {
        Some(declared) => if declared.has(name) {
            Some(declared.rule_of(name))
        } else {
            None
        },
        None => None,
    }
}

/// The complaints about the declared fields of an object rule; none for a rule
/// that declares no fields.
pub open spec fn declared_complaints(
    entries: Seq<(ConfigValue, ConfigValue)>,
    keys: Option<KeyRules>,
    path: Seq<char>,
) -> Seq<ErrorView> {
    match keys {
        Some(declared) => required_errors(
            entries,
            declared.entries(),
            path,
            declared.entries().len(),
        ),
        None => Seq::empty(),
    }
}

/// The walk over an object under an object rule: first the complaints about the
/// declared fields, then the entries in document order.
pub open spec fn walk_object(
    entries: Seq<(ConfigValue, ConfigValue)>,
    rule: SchemaRule,
    path: Seq<char>,
    allow_unknown: bool,
) -> Walk
    decreases entries, entries.len() + 1,
{
    followed_by(
        found(declared_complaints(entries, rule.keys, path)),
        walk_entries(entries, rule.keys, path, allow_unknown, entries.len()),
    )
}

/// The walk over a list under a list rule: the length bounds, then every element
/// under the element rule.
pub open spec fn walk_list(items: Seq<ConfigValue>, rule: SchemaRule, path: Seq<char>) -> Walk
    decreases items, items.len() + 1,
{
    let lengths = length_errors(rule, path, items.len(), "List"@, "items"@);
    match rule.items {
        Some(inner) => followed_by(found(lengths), walk_items(items, *inner, path, items.len())),
        None => found(lengths),
    }
}

/// The walk over one entry of an object: into the value where the key has a rule,
/// a complaint where it has none and unknown keys are refused. Keys that are no
/// strings are passed over. Below a node that refuses unknown keys, every node
/// refuses them.
pub open spec fn walk_entry(
    entry: (ConfigValue, ConfigValue),
    keys: Option<KeyRules>,
    path: Seq<char>,
    allow_unknown: bool,
) -> Walk
    decreases entry, 1nat,
{
    match entry.0 {
        ConfigValue::String(name) => match rule_for(keys, name@) {
            Some(rule) => walk_node(entry.1, rule, field_path(path, name@), !allow_unknown),
            None => if !allow_unknown {
                found(seq![unknown_key(path, name@)])
            } else {
                quiet()
            },
        },
        _ => quiet(),
    }
}

/// The walk over the first `upto` entries of an object, in document order.
pub open spec fn walk_entries(
    entries: Seq<(ConfigValue, ConfigValue)>,
    keys: Option<KeyRules>,
    path: Seq<char>,
    allow_unknown: bool,
    upto: nat,
) -> Walk
    decreases entries, upto,
{
    if upto == 0 || upto > entries.len() {
        quiet()
    } else {
        followed_by(
            walk_entries(entries, keys, path, allow_unknown, (upto - 1) as nat),
            walk_entry(entries[upto - 1], keys, path, allow_unknown),
        )
    }
}

/// The walk over the first `upto` elements of a list, each under the element
/// rule and without strictness handed down.
pub open spec fn walk_items(
    items: Seq<ConfigValue>,
    rule: SchemaRule,
    path: Seq<char>,
    upto: nat,
) -> Walk
    decreases items, upto,
{
    if upto == 0 || upto > items.len() {
        quiet()
    } else {
        followed_by(
            walk_items(items, rule, path, (upto - 1) as nat),
            walk_node(items[upto - 1], rule, item_path(path, (upto - 1) as nat), false),
        )
    }
}

/// A copy of an optional text.
fn copy_text(text: &Option<String>) -> (r: Option<String>)
    ensures
        text_of(r) == text_of(*text),
{
    match text {
        Some(t) => Some(t.clone()),
        None => None,
    }
}

/// Appends one violation.
fn report(
    errors: &mut Vec<ValidationError>,
    path: &str,
    message: &str,
    expected: String,
    actual: String,
    description: &Option<String>,
)
    ensures
        views(final(errors)@) == views(old(errors)@) + seq![
            violation(path@, message@, expected@, actual@, *description),
        ],
{
    let error = ValidationError {
        path: path.to_string(),
        message: message.to_string(),
        expected,
        actual,
        description: copy_text(description),
        line: None,
    };
    errors.push(error);
    assert(views(errors@) =~= views(old(errors)@) + seq![
        violation(path@, message@, expected@, actual@, *description),
    ]);
}

/// Whether a value has the runtime type that a rule asks for.
pub fn validate_type(value: &ConfigValue, expected_type: &SchemaType) -> (r: bool)
    ensures
        r == type_matches(*value, *expected_type),
{
    match expected_type {
        SchemaType::String => match value {
            ConfigValue::String(_) => true,
            _ => false,
        },
        SchemaType::Integer => match value {
            ConfigValue::Number(n) => n.is_int(),
            _ => false,
        },
        SchemaType::Float => match value {
            ConfigValue::Number(n) => !n.is_int(),
            _ => false,
        },
        SchemaType::Boolean => match value {
            ConfigValue::Bool(_) => true,
            _ => false,
        },
        SchemaType::Object => match value {
            ConfigValue::Mapping(_) => true,
            _ => false,
        },
        SchemaType::List => match value {
            ConfigValue::Sequence(_) => true,
            _ => false,
        },
        SchemaType::Null => match value {
            ConfigValue::Null => true,
            _ => false,
        },
        SchemaType::Any => true,
    }
}

/// Checks a length against the bounds of a rule.
fn check_lengths(
    rule: &SchemaRule,
    path: &str,
    len: usize,
    what: &str,
    noun: &str,
    errors: &mut Vec<ValidationError>,
)
    ensures
        views(final(errors)@) == views(old(errors)@) + length_errors(
            *rule,
            path@,
            len as nat,
            what@,
            noun@,
        ),
{
    let ghost before = views(errors@);
    let ghost mut short: Seq<ErrorView> = Seq::empty();
    if let Some(least) = rule.min_length {
        if len < least {
            let mut message = what.to_string();
            message.append(" too short");
            let mut expected = "At least ".to_string();
            let digits = count_text(least);
            expected.append(digits.as_str());
            expected.append(" ");
            expected.append(noun);
            let mut actual = count_text(len);
            actual.append(" ");
            actual.append(noun);
            report(errors, path, message.as_str(), expected, actual, &rule.description);
            proof {
                short = seq![
                    violation(
                        path@,
                        what@ + " too short"@,
                        "At least "@ + decimal(least as nat) + " "@ + noun@,
                        decimal(len as nat) + " "@ + noun@,
                        rule.description,
                    ),
                ];
            }
        }
    }
    assert(views(errors@) =~= before + short);
    if let Some(most) = rule.max_length {
        if len > most {
            let mut message = what.to_string();
            message.append(" too long");
            let mut expected = "At most ".to_string();
            let digits = count_text(most);
            expected.append(digits.as_str());
            expected.append(" ");
            expected.append(noun);
            let mut actual = count_text(len);
            actual.append(" ");
            actual.append(noun);
            report(errors, path, message.as_str(), expected, actual, &rule.description);
        }
    }
    assert(views(errors@) =~= before + length_errors(*rule, path@, len as nat, what@, noun@));
}

/// Checks a number against an enumeration.
fn check_listing(
    rule: &SchemaRule,
    path: &str,
    values: &Vec<ConfigValue>,
    bits: u64,
    shown: &str,
    errors: &mut Vec<ValidationError>,
)
    ensures
        views(final(errors)@) == views(old(errors)@) + listing_errors(
            *rule,
            path@,
            values@,
            bits,
            shown@,
        ),
{
    let mut i: usize = 0;
    while i < values.len()
        invariant
            i <= values.len(),
            first_other(values@, 0) == first_other(values@, i as nat),
            errors@ == old(errors)@,
        decreases values.len() - i,
    {
        match &values[i] {
            ConfigValue::Number(_) => {},
            other => {
                let mut actual = "Non-numeric value: ".to_string();
                let rendered = debug_string(other);
                actual.append(rendered.as_str());
                report(
                    errors,
                    path,
                    "Invalid enum value type",
                    "Numeric value for numeric field".to_string(),
                    actual,
                    &rule.description,
                );
                return ;
            },
        }
        i = i + 1;
    }
    let mut j: usize = 0;
    while j < values.len()
        invariant
            j <= values.len(),
            first_other(values@, 0) == values@.len(),
            forall|k: int| 0 <= k < j ==> !is_close(#[trigger] values@[k], bits),
            errors@ == old(errors)@,
        decreases values.len() - j,
    {
        let close = match &values[j] {
            ConfigValue::Number(e) => bits_near(bits, e.to_bits()),
            _ => false,
        };
        if close {
            assert(is_close(values@[j as int], bits));
            assert(views(errors@) =~= views(old(errors)@) + listing_errors(
                *rule,
                path@,
                values@,
                bits,
                shown@,
            ));
            return ;
        }
        j = j + 1;
    }
    let mut expected = "One of: ".to_string();
    let listed = debug_list(values);
    expected.append(listed.as_str());
    report(
        errors,
        path,
        "Value not in allowed set",
        expected,
        shown.to_string(),
        &rule.description,
    );
}

/// Checks one bound of a number: `below` for the least value, else the greatest.
fn check_bound(
    rule: &SchemaRule,
    path: &str,
    bits: u64,
    shown: &str,
    below: bool,
    errors: &mut Vec<ValidationError>,
)
    ensures
        views(final(errors)@) == views(old(errors)@) + bound_errors(
            *rule,
            path@,
            bits,
            shown@,
            below,
        ),
{
    let bound = if below {
        &rule.min
    } else {
        &rule.max
    };
    match bound {
        Some(ConfigValue::Number(limit)) => {
            let limit_bits = limit.to_bits();
            let outside = if below {
                bits_lt(bits, limit_bits)
            } else {
                bits_lt(limit_bits, bits)
            };
            if outside {
                let mut expected = if below {
                    "At least ".to_string()
                } else {
                    "At most ".to_string()
                };
                let limit_text = limit.to_text();
                expected.append(limit_text.as_str());
                report(
                    errors,
                    path,
                    if below {
                        "Value too small"
                    } else {
                        "Value too large"
                    },
                    expected,
                    shown.to_string(),
                    &rule.description,
                );
                return ;
            }
        },
        _ => {},
    }
    assert(views(errors@) =~= views(old(errors)@) + bound_errors(
        *rule,
        path@,
        bits,
        shown@,
        below,
    ));
}

/// Checks a number against a numeric rule: that it is finite, then its bounds,
/// then the enumeration. A value that is no number is passed over.
pub fn validate_number(
    value: &ConfigValue,
    rule: &SchemaRule,
    path: &str,
    errors: &mut Vec<ValidationError>,
) -> (r: Result<(), ConfigGuardError>)
    ensures
        r is Ok,
        views(final(errors)@) == views(old(errors)@) + (match *value {
            ConfigValue::Number(n) => number_errors(n.pattern(), n.shown(), *rule, path@),
            _ => Seq::empty(),
        }),
{
    let ghost before = views(errors@);
    match value {
        ConfigValue::Number(n) => {
            let bits = n.to_bits();
            let shown = n.to_text();
            if bits_is_nan(bits) {
                report(
                    errors,
                    path,
                    "Invalid numeric value",
                    "A valid number".to_string(),
                    "NaN (Not a Number)".to_string(),
                    &rule.description,
                );
                return Ok(());
            }
            if bits_is_infinite(bits) {
                let actual = if bits_is_negative(bits) {
                    "Negative infinity".to_string()
                } else {
                    "Positive infinity".to_string()
                };
                report(
                    errors,
                    path,
                    "Invalid numeric value",
                    "A finite number".to_string(),
                    actual,
                    &rule.description,
                );
                return Ok(());
            }
            check_bound(rule, path, bits, shown.as_str(), true, errors);
            let ghost low = bound_errors(*rule, path@, bits, shown@, true);
            check_bound(rule, path, bits, shown.as_str(), false, errors);
            let ghost high = bound_errors(*rule, path@, bits, shown@, false);
            assert(views(errors@) =~= before + (low + high));
            if let Some(values) = &rule.enum_values {
                check_listing(rule, path, values, bits, shown.as_str(), errors);
            }
            assert(views(errors@) =~= before + number_errors(bits, shown@, *rule, path@));
            Ok(())
        },
        _ => {
            assert(views(errors@) =~= before + Seq::<ErrorView>::empty());
            Ok(())
        },
    }
}

/// Whether a result reports the end of a walk: success, or the failure of a
/// pattern that does not compile.
pub open spec fn ends_as(r: Result<(), ConfigGuardError>, fault: Option<Seq<char>>) -> bool {
    match fault {
        None => r is Ok,
        Some(message) => r matches Err(ConfigGuardError::Pattern(t)) && t@ == message,
    }
}

/// Whether a string is one of the string entries of an enumeration.
fn is_listed(values: &Vec<ConfigValue>, s: &String) -> (r: bool)
    ensures
        r == listed_text(values@, s@),
{
    let mut i: usize = 0;
    while i < values.len()
        invariant
            i <= values.len(),
            forall|j: int| 0 <= j < i ==> !is_key(#[trigger] values@[j], s@),
        decreases values.len() - i,
    {
        let same = match &values[i] {
            ConfigValue::String(e) => *e == *s,
            _ => false,
        };
        if same {
            assert(is_key(values@[i as int], s@));
            return true;
        }
        i = i + 1;
    }
    false
}

/// Judges a string by the outcome of searching it for the pattern of its rule:
/// appends the complaint where the pattern did not match, and ends with the
/// pattern failure where the pattern did not compile.
pub fn judge_search(
    rule: &SchemaRule,
    path: &str,
    pattern: &str,
    s: &str,
    outcome: Result<bool, String>,
    errors: &mut Vec<ValidationError>,
) -> (r: Result<(), ConfigGuardError>)
    ensures
        views(final(errors)@) == views(old(errors)@) + search_outcome(
            *rule,
            path@,
            pattern@,
            s@,
            outcome_view(outcome),
        ).errors,
        ends_as(r, search_outcome(*rule, path@, pattern@, s@, outcome_view(outcome)).fault),
{
    let ghost before = views(errors@);
    assert(before =~= before + Seq::<ErrorView>::empty());
    match outcome {
        Err(message) => {
            let mut text = "Invalid pattern in schema: ".to_string();
            text.append(message.as_str());
            Err(ConfigGuardError::Pattern(text))
        },
        Ok(matched) => {
            if !matched {
                let mut expected = "Pattern: ".to_string();
                expected.append(pattern);
                report(
                    errors,
                    path,
                    "String doesn't match pattern",
                    expected,
                    s.to_string(),
                    &rule.description,
                );
            }
            Ok(())
        },
    }
}

/// Checks a string against a string rule: length bounds counted in characters,
/// the pattern, the enumeration. A value that is no string is passed over. The
/// check ends with a failure at a pattern that does not compile.
pub fn validate_string(
    value: &ConfigValue,
    rule: &SchemaRule,
    path: &str,
    errors: &mut Vec<ValidationError>,
) -> (r: Result<(), ConfigGuardError>)
    ensures
        ({
            let walk = match *value {
                ConfigValue::String(s) => walk_string(s@, *rule, path@),
                _ => quiet(),
            };
            &&& views(final(errors)@) == views(old(errors)@) + walk.errors
            &&& ends_as(r, walk.fault)
        }),
{
    let ghost before = views(errors@);
    match value {
        ConfigValue::String(s) => {
            let len = s.as_str().unicode_len();
            check_lengths(rule, path, len, "String", "characters", errors);
            let ghost lengths = length_errors(*rule, path@, len as nat, "String"@, "characters"@);
            let ghost mut matching: Seq<ErrorView> = Seq::empty();
            let ghost matching = if rule.pattern is Some {
                search_outcome(
                    *rule,
                    path@,
                    rule.pattern->Some_0@,
                    s@,
                    pattern_answer(rule.pattern->Some_0@, s@),
                ).errors
            } else {
                Seq::empty()
            };
            if let Some(p) = &rule.pattern {
                let outcome = search(p.as_str(), s.as_str());
                match judge_search(rule, path, p.as_str(), s.as_str(), outcome, errors) {
                    Err(e) => {
                        assert(views(errors@) =~= before + walk_string(
                            s@,
                            *rule,
                            path@,
                        ).errors);
                        return Err(e);
                    },
                    Ok(()) => {},
                }
            }
            assert(views(errors@) =~= before + (lengths + matching));
            if let Some(values) = &rule.enum_values {
                if !is_listed(values, s) {
                    let mut expected = "One of: ".to_string();
                    let listed = debug_list(values);
                    expected.append(listed.as_str());
                    report(
                        errors,
                        path,
                        "Value not in allowed set",
                        expected,
                        s.clone(),
                        &rule.description,
                    );
                }
            }
            assert(views(errors@) =~= before + walk_string(s@, *rule, path@).errors);
            Ok(())
        },
        _ => {
            assert(views(errors@) =~= before + Seq::<ErrorView>::empty());
            Ok(())
        },
    }
}

/// A walk over entries that ended at a pattern stays as it is when more entries
/// are looked at.
proof fn lemma_entries_fault_stays(
    entries: Seq<(ConfigValue, ConfigValue)>,
    keys: Option<KeyRules>,
    path: Seq<char>,
    allow_unknown: bool,
    upto: nat,
    more: nat,
)
    requires
        upto <= more <= entries.len(),
        walk_entries(entries, keys, path, allow_unknown, upto).fault is Some,
    ensures
        walk_entries(entries, keys, path, allow_unknown, more) == walk_entries(
            entries,
            keys,
            path,
            allow_unknown,
            upto,
        ),
    decreases more,
{
    if more > upto {
        lemma_entries_fault_stays(entries, keys, path, allow_unknown, upto, (more - 1) as nat);
    }
}

/// A walk over elements that ended at a pattern stays as it is when more
/// elements are looked at.
proof fn lemma_items_fault_stays(
    items: Seq<ConfigValue>,
    rule: SchemaRule,
    path: Seq<char>,
    upto: nat,
    more: nat,
)
    requires
        upto <= more <= items.len(),
        walk_items(items, rule, path, upto).fault is Some,
    ensures
        walk_items(items, rule, path, more) == walk_items(items, rule, path, upto),
    decreases more,
{
    if more > upto {
        lemma_items_fault_stays(items, rule, path, upto, (more - 1) as nat);
    }
}

/// Reports what is wrong with a declared field of an object.
fn check_declared(
    entries: &Vec<(ConfigValue, ConfigValue)>,
    name: &String,
    rule: &SchemaRule,
    path: &str,
    errors: &mut Vec<ValidationError>,
)
    ensures
        views(final(errors)@) == views(old(errors)@) + declared_errors(
            entries@,
            name@,
            *rule,
            path@,
        ),
{
    if rule.required {
        match find_key(entries, name.as_str()) {
            None => {
                let child = join3(path, ".", name.as_str());
                report(
                    errors,
                    child.as_str(),
                    "Required key missing",
                    "Key to be present".to_string(),
                    "Key is absent".to_string(),
                    &rule.description,
                );
                return ;
            },
            Some(at) => {
                let empty = match &entries[at].1 {
                    ConfigValue::Mapping(inner) => inner.len() == 0,
                    _ => false,
                };
                let declares = match &rule.keys {
                    Some(keys) => keys.len() > 0,
                    None => false,
                };
                if rule.data_type == SchemaType::Object && empty && declares {
                    let child = join3(path, ".", name.as_str());
                    report(
                        errors,
                        child.as_str(),
                        "Required object is empty",
                        "Object with required fields".to_string(),
                        "Empty object".to_string(),
                        &rule.description,
                    );
                    return ;
                }
            },
        }
    }
    assert(views(errors@) =~= views(old(errors)@) + declared_errors(
        entries@,
        name@,
        *rule,
        path@,
    ));
}

/// Walks a node of the document under a rule and appends every violation found.
/// A type mismatch is reported alone. `strict` refuses unknown keys whatever the
/// rules allow. The walk ends with a failure at a pattern that does not compile.
pub fn validate_node(
    value: &ConfigValue,
    rule: &SchemaRule,
    path: &str,
    errors: &mut Vec<ValidationError>,
    strict: bool,
) -> (r: Result<(), ConfigGuardError>)
    ensures
        views(final(errors)@) == views(old(errors)@) + walk_node(
            *value,
            *rule,
            path@,
            strict,
        ).errors,
        ends_as(r, walk_node(*value, *rule, path@, strict).fault),
    decreases *value, 1nat,
{
    let allow_unknown_keys = if strict {
        false
    } else {
        rule.allow_unknown_keys
    };
    if !validate_type(value, &rule.data_type) {
        report(
            errors,
            path,
            "Type mismatch",
            rule.data_type.label(),
            value_type_name(value),
            &rule.description,
        );
        return Ok(());
    }
    match rule.data_type {
        SchemaType::Object => validate_object(value, rule, path, errors, allow_unknown_keys),
        SchemaType::List => validate_list(value, rule, path, errors),
        SchemaType::String => validate_string(value, rule, path, errors),
        SchemaType::Integer | SchemaType::Float => validate_number(value, rule, path, errors),
        _ => {
            assert(views(errors@) =~= views(old(errors)@) + Seq::<ErrorView>::empty());
            Ok(())
        },
    }
}

/// Reports what is wrong with the declared fields of an object rule.
fn check_required(
    entries: &Vec<(ConfigValue, ConfigValue)>,
    keys: &Option<KeyRules>,
    path: &str,
    errors: &mut Vec<ValidationError>,
)
    ensures
        views(final(errors)@) == views(old(errors)@) + declared_complaints(
            entries@,
            *keys,
            path@,
        ),
{
    let ghost before = views(errors@);
    assert(before =~= before + Seq::<ErrorView>::empty());
    if let Some(declared) = keys {
        let mut i: usize = 0;
        while i < declared.len()
            invariant
                i <= declared.entries().len(),
                views(errors@) == before + required_errors(
                    entries@,
                    declared.entries(),
                    path@,
                    i as nat,
                ),
            decreases declared.entries().len() - i,
        {
            check_declared(entries, declared.name_at(i), declared.rule_at(i), path, errors);
            i = i + 1;
            assert(views(errors@) =~= before + required_errors(
                entries@,
                declared.entries(),
                path@,
                i as nat,
            ));
        }
    }
}

/// The rule that stands under a name among the declared fields, if any.
fn find_rule<'a>(keys: &'a Option<KeyRules>, name: &str) -> (r: Option<&'a SchemaRule>)
    ensures
        match r {
            Some(rule) => rule_for(*keys, name@) == Some(*rule),
            None => rule_for(*keys, name@) is None,
        },
{
    match keys {
        Some(declared) => declared.get(name),
        None => None,
    }
}

/// Checks an object against an object rule: the declared fields that are
/// required, then every entry, into its value where the key has a rule. A key
/// without a rule is a violation where unknown keys are not allowed. A value
/// that is no object is passed over.
#[verifier::loop_isolation(false)]
pub fn validate_object(
    value: &ConfigValue,
    rule: &SchemaRule,
    path: &str,
    errors: &mut Vec<ValidationError>,
    allow_unknown_keys: bool,
) -> (r: Result<(), ConfigGuardError>)
    ensures
        ({
            let walk = match *value {
                ConfigValue::Mapping(entries) => walk_object(
                    entries@,
                    *rule,
                    path@,
                    allow_unknown_keys,
                ),
                _ => quiet(),
            };
            &&& views(final(errors)@) == views(old(errors)@) + walk.errors
            &&& ends_as(r, walk.fault)
        }),
    decreases *value, 0nat,
{
    let ghost before = views(errors@);
    assert(before =~= before + Seq::<ErrorView>::empty());
    match value {
        ConfigValue::Mapping(entries) => {
            check_required(entries, &rule.keys, path, errors);
            let ghost required = declared_complaints(entries@, rule.keys, path@);
            let mut j: usize = 0;
            assert(views(errors@) =~= before + (required + Seq::<ErrorView>::empty()));
            while j < entries.len()
                invariant
                    j <= entries.len(),
                    walk_entries(
                        entries@,
                        rule.keys,
                        path@,
                        allow_unknown_keys,
                        j as nat,
                    ).fault is None,
                    views(errors@) == before + (required + walk_entries(
                        entries@,
                        rule.keys,
                        path@,
                        allow_unknown_keys,
                        j as nat,
                    ).errors),
                decreases entries.len() - j,
            {
                let ghost sofar = walk_entries(
                    entries@,
                    rule.keys,
                    path@,
                    allow_unknown_keys,
                    j as nat,
                ).errors;
                let ghost step = walk_entry(
                    entries@[j as int],
                    rule.keys,
                    path@,
                    allow_unknown_keys,
                );
                if let ConfigValue::String(name) = &entries[j].0 {
                    match find_rule(&rule.keys, name.as_str()) {
                        Some(key_rule) => {
                            let child = join3(path, ".", name.as_str());
                            proof {
                                assert(decreases_to!(*entries => entries@));
                                assert(decreases_to!(entries@ => entries@[j as int]));
                            }
                            let outcome = validate_node(
                                &entries[j].1,
                                key_rule,
                                child.as_str(),
                                errors,
                                !allow_unknown_keys,
                            );
                            assert(views(errors@) =~= before + (required + (sofar
                                + step.errors)));
                            if let Err(e) = outcome {
                                proof {
                                    lemma_entries_fault_stays(
                                        entries@,
                                        rule.keys,
                                        path@,
                                        allow_unknown_keys,
                                        (j + 1) as nat,
                                        entries@.len(),
                                    );
                                }
                                return Err(e);
                            }
                        },
                        None => {
                            if !allow_unknown_keys {
                                let child = join3(path, ".", name.as_str());
                                report(
                                    errors,
                                    child.as_str(),
                                    "Unknown key",
                                    "Key defined in schema".to_string(),
                                    "Undefined key".to_string(),
                                    &None,
                                );
                            }
                        },
                    }
                }
                assert(views(errors@) =~= before + (required + (sofar + step.errors)));
                j = j + 1;
            }
            assert(views(errors@) =~= before + walk_object(
                entries@,
                *rule,
                path@,
                allow_unknown_keys,
            ).errors);
            Ok(())
        },
        _ => Ok(()),
    }
}

/// Checks a list against a list rule: the length bounds, then every element
/// under the element rule. A value that is no list is passed over.
#[verifier::loop_isolation(false)]
pub fn validate_list(
    value: &ConfigValue,
    rule: &SchemaRule,
    path: &str,
    errors: &mut Vec<ValidationError>,
) -> (r: Result<(), ConfigGuardError>)
    ensures
        ({
            let walk = match *value {
                ConfigValue::Sequence(items) => walk_list(items@, *rule, path@),
                _ => quiet(),
            };
            &&& views(final(errors)@) == views(old(errors)@) + walk.errors
            &&& ends_as(r, walk.fault)
        }),
    decreases *value, 0nat,
{
    let ghost before = views(errors@);
    assert(before =~= before + Seq::<ErrorView>::empty());
    match value {
        ConfigValue::Sequence(items) => {
            check_lengths(rule, path, items.len(), "List", "items", errors);
            let ghost lengths = length_errors(*rule, path@, items@.len(), "List"@, "items"@);
            match &rule.items {
                Some(inner) => {
                    let mut i: usize = 0;
                    assert(views(errors@) =~= before + (lengths + Seq::<ErrorView>::empty()));
                    while i < items.len()
                        invariant
                            i <= items.len(),
                            walk_items(items@, **inner, path@, i as nat).fault is None,
                            views(errors@) == before + (lengths + walk_items(
                                items@,
                                **inner,
                                path@,
                                i as nat,
                            ).errors),
                        decreases items.len() - i,
                    {
                        let ghost sofar = walk_items(items@, **inner, path@, i as nat).errors;
                        let ghost step = walk_node(
                            items@[i as int],
                            **inner,
                            item_path(path@, i as nat),
                            false,
                        );
                        let mut child = path.to_string();
                        child.append("[");
                        let index = count_text(i);
                        child.append(index.as_str());
                        child.append("]");
                        proof {
                            assert(decreases_to!(*items => items@));
                            assert(decreases_to!(items@ => items@[i as int]));
                        }
                        let outcome = validate_node(
                            &items[i],
                            inner,
                            child.as_str(),
                            errors,
                            false,
                        );
                        assert(views(errors@) =~= before + (lengths + (sofar + step.errors)));
                        if let Err(e) = outcome {
                            proof {
                                lemma_items_fault_stays(
                                    items@,
                                    **inner,
                                    path@,
                                    (i + 1) as nat,
                                    items@.len(),
                                );
                            }
                            return Err(e);
                        }
                        i = i + 1;
                    }
                    assert(views(errors@) =~= before + walk_list(items@, *rule, path@).errors);
                    Ok(())
                },
                None => Ok(()),
            }
        },
        _ => Ok(()),
    }
}

/// What validating a value must answer: the failure of a pattern that does not
/// compile where the walk met one; else that the value is valid where the walk
/// found no violation, and every violation, in the order of the walk, where it
/// found any.
pub open spec fn judged(
    r: Result<ValidationResult, ConfigGuardError>,
    value: ConfigValue,
    schema: Schema,
    strict: bool,
) -> bool {
    let walk = walk_node(value, schema.root, Seq::empty(), strict);
    match walk.fault {
        Some(message) => r matches Err(ConfigGuardError::Pattern(t)) && t@ == message,
        None => if walk.errors.len() == 0 {
            r matches Ok(ValidationResult::Valid)
        } else {
            r matches Ok(ValidationResult::Invalid(errors)) && errors@.len() > 0 && views(errors@)
                == walk.errors
        },
    }
}

/// Validates a value tree against a schema in one walk from the root. The
/// answer is never partial: valid, or every violation in the order of the walk.
/// In strict mode a key without a rule is a violation whatever the rules allow.
pub fn validate_value(value: &ConfigValue, schema: &Schema, strict: bool) -> (r: Result<
    ValidationResult,
    ConfigGuardError,
>)
    ensures
        judged(r, *value, *schema, strict),
{
    let mut errors: Vec<ValidationError> = Vec::new();
    proof {
        reveal_strlit("");
        assert(""@ =~= Seq::<char>::empty());
        assert(views(errors@) =~= Seq::<ErrorView>::empty());
    }
    let ghost walk = walk_node(*value, schema.root, Seq::empty(), strict);
    match validate_node(value, &schema.root, "", &mut errors, strict) {
        Err(e) => {
            return Err(e);
        },
        Ok(()) => {},
    }
    assert(views(errors@) =~= walk.errors);
    assert(views(errors@).len() == errors@.len());
    if errors.len() == 0 {
        Ok(ValidationResult::Valid)
    } else {
        Ok(ValidationResult::Invalid(errors))
    }
}

/// The violations of a document under a schema as they are handed out: those of
/// the walk from the root, with the lines that the source text gives them where
/// the document carries its text.
pub open spec fn findings(config: Config, schema: Schema, strict: bool) -> Seq<ErrorView> {
    let errors = walk_node(config.data, schema.root, Seq::empty(), strict).errors;
    match config.content {
        Some(text) => annotated_all(errors, text@, config.format),
        None => errors,
    }
}

/// What validating a document must answer: the failure of a pattern that does
/// not compile where the walk met one; else that the document is valid where the
/// walk found no violation, and every violation, in the order of the walk and
/// with the lines that the source text gives, where it found any.
pub open spec fn verdict(
    r: Result<ValidationResult, ConfigGuardError>,
    config: Config,
    schema: Schema,
    strict: bool,
) -> bool {
    let walk = walk_node(config.data, schema.root, Seq::empty(), strict);
    match walk.fault {
        Some(message) => r matches Err(ConfigGuardError::Pattern(t)) && t@ == message,
        None => if walk.errors.len() == 0 {
            r matches Ok(ValidationResult::Valid)
        } else {
            r matches Ok(ValidationResult::Invalid(errors)) && errors@.len() > 0 && views(
                errors@,
            ) == findings(config, schema, strict)
        },
    }
}

/// Validates a document against a schema in one walk from the root. The answer
/// is never partial: valid, or every violation in the order of the walk, each
/// with the line of the source text where the document carries its text and
/// the line mapper finds one. In strict mode a key without a rule is a
/// violation whatever the rules allow.
pub fn validate(config: &Config, schema: &Schema, strict: bool) -> (r: Result<
    ValidationResult,
    ConfigGuardError,
>)
    ensures
        verdict(r, *config, *schema, strict),
{
    match validate_value(&config.data, schema, strict) {
        Err(e) => Err(e),
        Ok(ValidationResult::Valid) => Ok(ValidationResult::Valid),
        Ok(ValidationResult::Invalid(found)) => {
            let mut errors = found;
            if let Some(content) = &config.content {
                find_line_numbers(content.as_str(), &mut errors, config.format);
            }
            assert(views(errors@).len() == errors@.len());
            Ok(ValidationResult::Invalid(errors))
        },
    }
}

} // verus!
