//! What holds of every validation, proved from the definitions of the walk.

use crate::config::Config;
use crate::error::ConfigGuardError;
use crate::number::{float_near, is_finite, is_infinite, is_nan};
use crate::schema::{
    distinct_names, fields_tolerant, fields_well_formed, lemma_field_is_tolerant,
    lemma_rule_position, rule_position, tolerant, well_formed, KeyRules, Schema, SchemaRule,
    SchemaType,
};
use crate::validation::{
    bound_errors, declared_complaints, declared_errors, field_path, found, item_path, judged,
    length_errors,
    first_other, is_close, listing_errors, mismatch, not_a_number, not_listed, number_errors,
    required_errors,
    rule_for, type_matches, unknown_key, verdict, views, violation, walk_entries, walk_entry,
    walk_items, walk_node, walk_object, walk_string, ErrorView, ValidationResult,
};
use crate::value::{has_key, ConfigValue};
use vstd::prelude::*;

verus! {

/// The violations that an answer lists, where it lists any.
pub open spec fn listed(r: Result<ValidationResult, ConfigGuardError>) -> Option<Seq<ErrorView>> {
    match r {
        Ok(ValidationResult::Invalid(errors)) => Some(views(errors@)),
        _ => None,
    }
}

/// The message of the pattern failure that an answer reports, where it reports one.
pub open spec fn pattern_message(r: Result<ValidationResult, ConfigGuardError>) -> Option<
    Seq<char>,
> {
    match r {
        Err(ConfigGuardError::Pattern(message)) => Some(message@),
        _ => None,
    }
}

/// The violations that an answer about a value lists, where it lists any.
pub open spec fn listed_invalid(r: Result<ValidationResult, ConfigGuardError>) -> Option<
    Seq<ErrorView>,
> {
    match r {
        Ok(ValidationResult::Invalid(errors)) => Some(views(errors@)),
        _ => None,
    }
}

/// Validation of a value is a function of the value, the schema and the mode:
/// two answers to the same question agree on whether the value is valid, and
/// where it is not they list the same violations in the same order.
pub proof fn lemma_validate_value_is_deterministic(
    value: ConfigValue,
    schema: Schema,
    strict: bool,
    first: Result<ValidationResult, ConfigGuardError>,
    second: Result<ValidationResult, ConfigGuardError>,
)
    requires
        judged(first, value, schema, strict),
        judged(second, value, schema, strict),
    ensures
        first matches Ok(ValidationResult::Valid) <==> second matches Ok(ValidationResult::Valid),
        first is Ok <==> second is Ok,
        listed_invalid(first) == listed_invalid(second),
        pattern_message(first) == pattern_message(second),
{
}

/// Validation of a document is a function of the document, the schema and the
/// mode: two answers to the same question agree on whether the document is
/// valid, and where it is not they list the same violations in the same order.
pub proof fn lemma_validate_is_deterministic(
    config: Config,
    schema: Schema,
    strict: bool,
    first: Result<ValidationResult, ConfigGuardError>,
    second: Result<ValidationResult, ConfigGuardError>,
)
    requires
        verdict(first, config, schema, strict),
        verdict(second, config, schema, strict),
    ensures
        first matches Ok(ValidationResult::Valid) <==> second matches Ok(ValidationResult::Valid),
        first is Ok <==> second is Ok,
        listed(first) == listed(second),
        pattern_message(first) == pattern_message(second),
{
}

/// A value of the wrong type yields the type mismatch and nothing else for its
/// node: no constraint is checked and nothing below the node is looked at.
pub proof fn lemma_type_mismatch_stands_alone(
    value: ConfigValue,
    rule: SchemaRule,
    path: Seq<char>,
    strict: bool,
)
    requires
        !type_matches(value, rule.data_type),
    ensures
        walk_node(value, rule, path, strict) == found(seq![mismatch(value, rule, path)]),
{
}

/// The violations of a walk over entries grow with the entries looked at: what
/// an entry yields stays in the list, as long as the walk does not end at a
/// pattern before it.
proof fn lemma_entry_errors_stay(
    entries: Seq<(ConfigValue, ConfigValue)>,
    keys: Option<KeyRules>,
    path: Seq<char>,
    allow_unknown: bool,
    at: int,
    upto: nat,
    e: ErrorView,
)
    requires
        0 <= at < upto <= entries.len(),
        walk_entries(entries, keys, path, allow_unknown, upto).fault is None,
        walk_entry(entries[at], keys, path, allow_unknown).errors.contains(e),
    ensures
        walk_entries(entries, keys, path, allow_unknown, upto).errors.contains(e),
    decreases upto,
{
    let before = walk_entries(entries, keys, path, allow_unknown, (upto - 1) as nat);
    let step = walk_entry(entries[upto - 1], keys, path, allow_unknown);
    let all = walk_entries(entries, keys, path, allow_unknown, upto);
    assert(before.fault is None);
    assert(all.errors == before.errors + step.errors);
    if at == upto - 1 {
        let i = choose|i: int| 0 <= i < step.errors.len() && step.errors[i] == e;
        assert(all.errors[before.errors.len() + i] == e);
    } else {
        lemma_entry_errors_stay(entries, keys, path, allow_unknown, at, (upto - 1) as nat, e);
        let i = choose|i: int| 0 <= i < before.errors.len() && before.errors[i] == e;
        assert(all.errors[i] == e);
    }
}

/// In strict mode a key without a rule is reported, whatever the rule of the
/// object says of unknown keys: for every entry of an object whose key is a
/// string that has no rule, the violations hold the complaint about that key,
/// unless the walk ended at a pattern before. The same holds below any object
/// that refuses unknown keys, since its entries are walked in strict mode.
pub proof fn lemma_strict_reports_unknown_keys(
    entries: Vec<(ConfigValue, ConfigValue)>,
    rule: SchemaRule,
    path: Seq<char>,
    at: int,
    name: String,
)
    requires
        rule.data_type == SchemaType::Object,
        0 <= at < entries@.len(),
        entries@[at].0 == ConfigValue::String(name),
        rule_for(rule.keys, name@) is None,
        walk_node(ConfigValue::Mapping(entries), rule, path, true).fault is None,
    ensures
        walk_node(ConfigValue::Mapping(entries), rule, path, true).errors.contains(
            unknown_key(path, name@),
        ),
{
    let walk = walk_node(ConfigValue::Mapping(entries), rule, path, true);
    assert(walk == walk_object(entries@, rule, path, false));
    let inner = walk_entries(entries@, rule.keys, path, false, entries@.len());
    let e = unknown_key(path, name@);
    assert(walk_entry(entries@[at], rule.keys, path, false).errors[0] == e);
    lemma_entry_errors_stay(entries@, rule.keys, path, false, at, entries@.len(), e);
    let i = choose|i: int| 0 <= i < inner.errors.len() && inner.errors[i] == e;
    let required = declared_complaints(entries@, rule.keys, path);
    assert(walk.errors == required + inner.errors);
    assert(walk.errors[required.len() + i] == e);
}

/// The first entry that is no number lies at or before any entry that is none,
/// and is none itself.
proof fn lemma_first_other(values: Seq<ConfigValue>, from: nat, at: int)
    requires
        from <= at < values.len(),
        !(values[at] is Number),
    ensures
        from <= first_other(values, from) <= at,
        !(values[first_other(values, from) as int] is Number),
    decreases values.len() - from,
{
    if values[from as int] is Number {
        lemma_first_other(values, from + 1, at);
    }
}

/// Where every entry from a position on is a number, there is no first entry
/// that is none.
proof fn lemma_all_numbers(values: Seq<ConfigValue>, from: nat)
    requires
        from <= values.len(),
        forall|i: int| from <= i < values.len() ==> (#[trigger] values[i]) is Number,
    ensures
        first_other(values, from) == values.len(),
    decreases values.len() - from,
{
    if from < values.len() {
        lemma_all_numbers(values, from + 1);
    }
}

/// An entry of an enumeration that is no number is not passed over in silence:
/// where a number is checked against an enumeration that holds such an entry,
/// the only violation of the enumeration is the complaint about the first one.
pub proof fn lemma_entry_without_number_is_reported(
    rule: SchemaRule,
    path: Seq<char>,
    values: Seq<ConfigValue>,
    bits: u64,
    shown: Seq<char>,
    at: int,
)
    requires
        0 <= at < values.len(),
        !(values[at] is Number),
    ensures
        first_other(values, 0) <= at,
        !(values[first_other(values, 0) as int] is Number),
        listing_errors(rule, path, values, bits, shown) == seq![
            not_a_number(rule, path, values[first_other(values, 0) as int]),
        ],
{
    lemma_first_other(values, 0, at);
}

/// A finite number is within the tolerance of itself, so an enumeration of
/// numbers that lists one with the same binary64 pattern accepts it.
pub proof fn lemma_listed_number_is_accepted(
    rule: SchemaRule,
    path: Seq<char>,
    values: Seq<ConfigValue>,
    bits: u64,
    shown: Seq<char>,
    at: int,
)
    requires
        is_finite(bits),
        0 <= at < values.len(),
        values[at] matches ConfigValue::Number(n) && n.pattern() == bits,
        forall|i: int| 0 <= i < values.len() ==> (#[trigger] values[i]) is Number,
    ensures
        float_near(bits, bits),
        listing_errors(rule, path, values, bits, shown) == Seq::<ErrorView>::empty(),
{
    vstd::arithmetic::power2::lemma_pow2_pos(1022);
    vstd::arithmetic::power2::lemma_pow2_pos(969);
    lemma_all_numbers(values, 0);
    assert(is_close(values[at], bits));
}

/// Whether a text begins with another.
pub open spec fn starts_with(s: Seq<char>, prefix: Seq<char>) -> bool {
    prefix.len() <= s.len() && s.subrange(0, prefix.len() as int) == prefix
}

/// Whether a text holds a dot at or behind a position.
pub open spec fn dotted_from(s: Seq<char>, from: nat) -> bool {
    exists|i: int| from <= i < s.len() && s[i] == '.'
}

/// Whether a violation is the complaint about a missing required key.
pub open spec fn is_missing_key(e: ErrorView) -> bool {
    e.message == "Required key missing"@
}

/// Whether a violation is the complaint about an unknown key.
pub open spec fn is_unknown_key(e: ErrorView) -> bool {
    e.message == "Unknown key"@
}

/// What holds of a violation found by a walk from the path `from`: it lies at
/// or below that path and carries no line yet; a missing key lies below it,
/// behind a dot; and where the walk tolerates unknown keys it is no complaint
/// about one.
pub open spec fn sound(e: ErrorView, from: Seq<char>, tolerates: bool) -> bool {
    &&& e.line is None
    &&& starts_with(e.path, from)
    &&& is_missing_key(e) ==> dotted_from(e.path, from.len())
    &&& tolerates ==> !is_unknown_key(e)
}

/// Whether every violation lies at the path itself and complains neither about a
/// missing nor about an unknown key.
spec fn local(errors: Seq<ErrorView>, path: Seq<char>) -> bool {
    forall|i: int|
        0 <= i < errors.len() ==> (#[trigger] errors[i]).path == path && !is_missing_key(
            errors[i],
        ) && !is_unknown_key(errors[i]) && errors[i].line is None
}

/// The lengths of the messages, by which they are told apart.
proof fn lemma_message_lengths()
    ensures
        "Required key missing"@.len() == 20,
        "Unknown key"@.len() == 11,
        "Type mismatch"@.len() == 13,
        "Required object is empty"@.len() == 24,
        "List"@.len() == 4,
        "String"@.len() == 6,
        " too short"@.len() == 10,
        " too long"@.len() == 9,
        "String doesn't match pattern"@.len() == 28,
        "Value not in allowed set"@.len() == 24,
        "Invalid numeric value"@.len() == 21,
        "Value too small"@.len() == 15,
        "Value too large"@.len() == 15,
        "Invalid enum value type"@.len() == 23,
        "."@ == seq!['.'],
{
    reveal_strlit("Required key missing");
    reveal_strlit("Unknown key");
    reveal_strlit("Type mismatch");
    reveal_strlit("Required object is empty");
    reveal_strlit("List");
    reveal_strlit("String");
    reveal_strlit(" too short");
    reveal_strlit(" too long");
    reveal_strlit("String doesn't match pattern");
    reveal_strlit("Value not in allowed set");
    reveal_strlit("Invalid numeric value");
    reveal_strlit("Value too small");
    reveal_strlit("Value too large");
    reveal_strlit("Invalid enum value type");
    reveal_strlit(".");
    assert("."@ =~= seq!['.']);
}

/// Violations that lie at the path itself and complain of neither kind of key
/// are sound.
proof fn lemma_local_is_sound(errors: Seq<ErrorView>, path: Seq<char>, tolerates: bool)
    requires
        local(errors, path),
    ensures
        forall|e: ErrorView| errors.contains(e) ==> sound(e, path, tolerates),
{
    assert forall|e: ErrorView| errors.contains(e) implies sound(e, path, tolerates) by {
        let i = choose|i: int| 0 <= i < errors.len() && errors[i] == e;
        assert(e.path.subrange(0, path.len() as int) =~= path);
    }
}

/// The complaints about a length lie at the path itself.
proof fn lemma_local_lengths(
    rule: SchemaRule,
    path: Seq<char>,
    len: nat,
    what: Seq<char>,
    noun: Seq<char>,
)
    requires
        what == "List"@ || what == "String"@,
    ensures
        local(length_errors(rule, path, len, what, noun), path),
{
    lemma_message_lengths();
}

/// A single violation at the path, told apart from the two complaints about
/// keys by the length of its message.
proof fn lemma_local_one(e: ErrorView, path: Seq<char>)
    requires
        e.path == path,
        e.line is None,
        e.message.len() != 20,
        e.message.len() != 11,
    ensures
        local(seq![e], path),
        local(Seq::<ErrorView>::empty(), path),
{
    lemma_message_lengths();
}

/// Two lists that lie at the path do so together.
proof fn lemma_local_add(a: Seq<ErrorView>, b: Seq<ErrorView>, path: Seq<char>)
    requires
        local(a, path),
        local(b, path),
    ensures
        local(a + b, path),
{
    assert forall|i: int| 0 <= i < (a + b).len() implies (#[trigger] (a + b)[i]).path == path
        && !is_missing_key((a + b)[i]) && !is_unknown_key((a + b)[i]) && (a + b)[i].line
        is None by {
        if i < a.len() {
            assert((a + b)[i] == a[i]);
        } else {
            assert((a + b)[i] == b[i - a.len()]);
        }
    }
}

/// What a string yields lies at the path itself.
proof fn lemma_local_string(s: Seq<char>, rule: SchemaRule, path: Seq<char>)
    ensures
        local(walk_string(s, rule, path).errors, path),
{
    lemma_message_lengths();
    let lengths = length_errors(rule, path, s.len(), "String"@, "characters"@);
    lemma_local_lengths(rule, path, s.len(), "String"@, "characters"@);
    let all = walk_string(s, rule, path).errors;
    let matching: Seq<ErrorView> = match rule.pattern {
        Some(p) => if crate::pattern::pattern_error(p@) is None && !crate::pattern::pattern_matches(
            p@,
            s,
        ) {
            seq![
                violation(
                    path,
                    "String doesn't match pattern"@,
                    "Pattern: "@ + p@,
                    s,
                    rule.description,
                ),
            ]
        } else {
            Seq::empty()
        },
        None => Seq::empty(),
    };
    let listing: Seq<ErrorView> = match rule.enum_values {
        Some(values) => if crate::validation::listed_text(values@, s) {
            Seq::empty()
        } else {
            seq![not_listed(rule, path, values@, s)]
        },
        None => Seq::empty(),
    };
    assert(local(matching, path));
    if let Some(values) = rule.enum_values {
        lemma_local_one(not_listed(rule, path, values@, s), path);
    }
    assert(local(listing, path));
    lemma_local_add(lengths, matching, path);
    lemma_local_add(lengths + matching, listing, path);
    if rule.pattern is Some && crate::pattern::pattern_error(rule.pattern->Some_0@) is Some {
        assert(all =~= lengths + matching);
    } else {
        assert(all =~= lengths + matching + listing);
    }
}

/// What a number yields lies at the path itself.
proof fn lemma_local_number(bits: u64, shown: Seq<char>, rule: SchemaRule, path: Seq<char>)
    ensures
        local(number_errors(bits, shown, rule, path), path),
{
    lemma_message_lengths();
    if is_nan(bits) || is_infinite(bits) {
    } else {
        let low = bound_errors(rule, path, bits, shown, true);
        let high = bound_errors(rule, path, bits, shown, false);
        let listing = match rule.enum_values {
            Some(values) => listing_errors(rule, path, values@, bits, shown),
            None => Seq::empty(),
        };
        lemma_local_one(
            violation(
                path,
                "Value too small"@,
                "At least "@ + crate::validation::bound_text(rule.min),
                shown,
                rule.description,
            ),
            path,
        );
        lemma_local_one(
            violation(
                path,
                "Value too large"@,
                "At most "@ + crate::validation::bound_text(rule.max),
                shown,
                rule.description,
            ),
            path,
        );
        assert(local(low, path));
        assert(local(high, path));
        if let Some(values) = rule.enum_values {
            lemma_local_one(not_listed(rule, path, values@, shown), path);
            let at = first_other(values@, 0);
            if at < values@.len() {
                lemma_local_one(not_a_number(rule, path, values@[at as int]), path);
            }
        }
        assert(local(listing, path));
        lemma_local_add(low, high, path);
        lemma_local_add(low + high, listing, path);
    }
}

/// A violation found below a deeper path is found below the path.
proof fn lemma_sound_from_below(
    e: ErrorView,
    from: Seq<char>,
    below: Seq<char>,
    tolerates: bool,
    dotted: bool,
)
    requires
        starts_with(below, from),
        sound(e, below, tolerates),
        dotted ==> from.len() < below.len() && below[from.len() as int] == '.',
        !dotted ==> !is_missing_key(e) || dotted_from(e.path, below.len()),
    ensures
        sound(e, from, tolerates),
{
    assert(e.path.subrange(0, from.len() as int) =~= below.subrange(0, from.len() as int));
    if dotted {
        assert(e.path[from.len() as int] == below[from.len() as int]) by {
            assert(e.path.subrange(0, below.len() as int)[from.len() as int]
                == e.path[from.len() as int]);
        }
    } else if is_missing_key(e) {
        let i = choose|i: int| below.len() <= i < e.path.len() && e.path[i] == '.';
        assert(from.len() <= i < e.path.len() && e.path[i] == '.');
    }
}

/// The path of a field: the object's path, a dot, the name.
proof fn lemma_field_path(path: Seq<char>, name: Seq<char>)
    ensures
        starts_with(field_path(path, name), path),
        field_path(path, name).len() == path.len() + 1 + name.len(),
        field_path(path, name)[path.len() as int] == '.',
        field_path(path, name).subrange(
            path.len() as int + 1,
            field_path(path, name).len() as int,
        )
            == name,
{
    lemma_message_lengths();
    let full = field_path(path, name);
    assert(full.subrange(0, path.len() as int) =~= path);
    assert(full.subrange(path.len() as int + 1, full.len() as int) =~= name);
}

/// The path of an element begins with the list's path.
proof fn lemma_item_path(path: Seq<char>, index: nat)
    ensures
        starts_with(item_path(path, index), path),
{
    assert(item_path(path, index).subrange(0, path.len() as int) =~= path);
}

/// Every violation of a walk over a node lies at or below the node's path, a
/// missing key behind a dot, and a walk that tolerates unknown keys reports none.
pub proof fn lemma_walk_is_sound(
    value: ConfigValue,
    rule: SchemaRule,
    path: Seq<char>,
    strict: bool,
)
    ensures
        forall|e: ErrorView|
            walk_node(value, rule, path, strict).errors.contains(e) ==> sound(
                e,
                path,
                tolerant(rule) && !strict,
            ),
    decreases value, 0nat,
{
    let tolerates = tolerant(rule) && !strict;
    lemma_message_lengths();
    if !type_matches(value, rule.data_type) {
        assert(local(seq![mismatch(value, rule, path)], path));
        lemma_local_is_sound(seq![mismatch(value, rule, path)], path, tolerates);
    } else {
        match rule.data_type {
            SchemaType::Object => match value {
                ConfigValue::Mapping(entries) => {
                    lemma_object_is_sound(
                        entries@,
                        rule,
                        path,
                        !strict && rule.allow_unknown_keys,
                    );
                },
                _ => {},
            },
            SchemaType::List => match value {
                ConfigValue::Sequence(items) => {
                    let lengths = length_errors(rule, path, items@.len(), "List"@, "items"@);
                    lemma_local_lengths(rule, path, items@.len(), "List"@, "items"@);
                    lemma_local_is_sound(lengths, path, tolerates);
                    match rule.items {
                        Some(inner) => {
                            lemma_items_are_sound(items@, *inner, path, items@.len());
                            let rest = walk_items(items@, *inner, path, items@.len()).errors;
                            assert forall|e: ErrorView|
                                walk_node(value, rule, path, strict).errors.contains(
                                    e,
                                ) implies sound(e, path, tolerates) by {
                                lemma_contains_either(lengths, rest, e);
                                if rest.contains(e) {
                                    assert(sound(e, path, tolerant(*inner)));
                                }
                            }
                        },
                        None => {},
                    }
                },
                _ => {},
            },
            SchemaType::String => match value {
                ConfigValue::String(s) => {
                    lemma_local_string(s@, rule, path);
                    lemma_local_is_sound(walk_string(s@, rule, path).errors, path, tolerates);
                },
                _ => {},
            },
            SchemaType::Integer | SchemaType::Float => match value {
                ConfigValue::Number(n) => {
                    lemma_local_number(n.pattern(), n.shown(), rule, path);
                    lemma_local_is_sound(
                        number_errors(n.pattern(), n.shown(), rule, path),
                        path,
                        tolerates,
                    );
                },
                _ => {},
            },
            _ => {},
        }
    }
}

/// An element of a concatenation lies in one of its parts.
proof fn lemma_contains_either(a: Seq<ErrorView>, b: Seq<ErrorView>, e: ErrorView)
    requires
        (a + b).contains(e),
    ensures
        a.contains(e) || b.contains(e),
{
    let i = choose|i: int| 0 <= i < (a + b).len() && (a + b)[i] == e;
    if i < a.len() {
        assert(a[i] == e);
    } else {
        assert(b[i - a.len()] == e);
    }
}

/// The complaints about declared fields are sound.
proof fn lemma_required_are_sound(
    entries: Seq<(ConfigValue, ConfigValue)>,
    declared: Seq<(String, SchemaRule)>,
    path: Seq<char>,
    upto: nat,
)
    ensures
        forall|e: ErrorView|
            required_errors(entries, declared, path, upto).contains(e) ==> sound(e, path, true),
    decreases upto,
{
    if upto == 0 || upto > declared.len() {
    } else {
        lemma_required_are_sound(entries, declared, path, (upto - 1) as nat);
        lemma_message_lengths();
        let before = required_errors(entries, declared, path, (upto - 1) as nat);
        let name = declared[upto - 1].0@;
        let step = declared_errors(entries, name, declared[upto - 1].1, path);
        lemma_field_path(path, name);
        assert forall|e: ErrorView|
            required_errors(entries, declared, path, upto).contains(e) implies sound(
            e,
            path,
            true,
        ) by {
            lemma_contains_either(before, step, e);
            if step.contains(e) {
                assert(e.path == field_path(path, name));
            }
        }
    }
}

/// Whether the declared fields, where there are any, tolerate unknown keys.
pub open spec fn declared_tolerant(keys: Option<KeyRules>) -> bool {
    keys matches Some(declared) ==> fields_tolerant(
        declared.entries(),
        declared.entries().len(),
    )
}

/// What the entries of an object yield is sound.
proof fn lemma_entries_are_sound(
    entries: Seq<(ConfigValue, ConfigValue)>,
    keys: Option<KeyRules>,
    path: Seq<char>,
    allow_unknown: bool,
    upto: nat,
)
    ensures
        forall|e: ErrorView|
            walk_entries(entries, keys, path, allow_unknown, upto).errors.contains(e) ==> sound(
                e,
                path,
                declared_tolerant(keys) && allow_unknown,
            ),
    decreases entries, upto,
{
    let tolerates = declared_tolerant(keys) && allow_unknown;
    if upto == 0 || upto > entries.len() {
    } else {
        lemma_entries_are_sound(entries, keys, path, allow_unknown, (upto - 1) as nat);
        lemma_message_lengths();
        let before = walk_entries(entries, keys, path, allow_unknown, (upto - 1) as nat);
        let entry = entries[upto - 1];
        let step = walk_entry(entry, keys, path, allow_unknown);
        assert forall|e: ErrorView|
            walk_entries(entries, keys, path, allow_unknown, upto).errors.contains(
                e,
            ) implies sound(e, path, tolerates) by {
            if before.fault is None {
                lemma_contains_either(before.errors, step.errors, e);
            }
            if !before.errors.contains(e) {
                assert(step.errors.contains(e));
                match entry.0 {
                    ConfigValue::String(name) => {
                        lemma_field_path(path, name@);
                        match rule_for(keys, name@) {
                            Some(child) => {
                                let declared = keys->Some_0;
                                lemma_walk_is_sound(
                                    entry.1,
                                    child,
                                    field_path(path, name@),
                                    !allow_unknown,
                                );
                                if tolerates {
                                    lemma_rule_position(declared.entries(), name@);
                                    lemma_field_is_tolerant(
                                        declared.entries(),
                                        declared.entries().len(),
                                        rule_position(declared.entries(), name@),
                                    );
                                }
                                lemma_sound_from_below(
                                    e,
                                    path,
                                    field_path(path, name@),
                                    tolerates,
                                    true,
                                );
                            },
                            None => {
                                assert(e == unknown_key(path, name@));
                            },
                        }
                    },
                    _ => {},
                }
            }
        }
    }
}

/// What an object yields is sound.
proof fn lemma_object_is_sound(
    entries: Seq<(ConfigValue, ConfigValue)>,
    rule: SchemaRule,
    path: Seq<char>,
    allow_unknown: bool,
)
    ensures
        forall|e: ErrorView|
            walk_object(entries, rule, path, allow_unknown).errors.contains(e) ==> sound(
                e,
                path,
                tolerant(rule) && allow_unknown,
            ),
    decreases entries, entries.len() + 1,
{
    let required = declared_complaints(entries, rule.keys, path);
    let inner = walk_entries(entries, rule.keys, path, allow_unknown, entries.len());
    if let Some(declared) = rule.keys {
        lemma_required_are_sound(entries, declared.entries(), path, declared.entries().len());
    }
    lemma_entries_are_sound(entries, rule.keys, path, allow_unknown, entries.len());
    assert(tolerant(rule) ==> declared_tolerant(rule.keys));
    assert(walk_object(entries, rule, path, allow_unknown).errors == required + inner.errors);
    assert forall|e: ErrorView|
        walk_object(entries, rule, path, allow_unknown).errors.contains(e) implies sound(
        e,
        path,
        tolerant(rule) && allow_unknown,
    ) by {
        lemma_contains_either(required, inner.errors, e);
        if required.contains(e) {
            assert(sound(e, path, true));
        } else {
            assert(inner.errors.contains(e));
            assert(sound(e, path, declared_tolerant(rule.keys) && allow_unknown));
        }
    }
}

/// What the elements of a list yield is sound.
proof fn lemma_items_are_sound(
    items: Seq<ConfigValue>,
    rule: SchemaRule,
    path: Seq<char>,
    upto: nat,
)
    ensures
        forall|e: ErrorView|
            walk_items(items, rule, path, upto).errors.contains(e) ==> sound(
                e,
                path,
                tolerant(rule),
            ),
    decreases items, upto,
{
    if upto == 0 || upto > items.len() {
    } else {
        lemma_items_are_sound(items, rule, path, (upto - 1) as nat);
        let before = walk_items(items, rule, path, (upto - 1) as nat);
        let below = item_path(path, (upto - 1) as nat);
        let step = walk_node(items[upto - 1], rule, below, false);
        lemma_walk_is_sound(items[upto - 1], rule, below, false);
        lemma_item_path(path, (upto - 1) as nat);
        assert forall|e: ErrorView|
            walk_items(items, rule, path, upto).errors.contains(e) implies sound(
            e,
            path,
            tolerant(rule),
        ) by {
            if before.fault is None {
                lemma_contains_either(before.errors, step.errors, e);
            }
            if !before.errors.contains(e) {
                lemma_sound_from_below(e, path, below, tolerant(rule), false);
            }
        }
    }
}

/// Outside strict mode, under rules that all tolerate unknown keys, no unknown
/// key is ever reported.
pub proof fn lemma_tolerant_rules_report_no_unknown_key(
    value: ConfigValue,
    rule: SchemaRule,
    path: Seq<char>,
)
    requires
        tolerant(rule),
    ensures
        forall|e: ErrorView|
            walk_node(value, rule, path, false).errors.contains(e) ==> !is_unknown_key(e),
{
    lemma_walk_is_sound(value, rule, path, false);
}

/// Whether a violation is the complaint about a missing required key at a path.
pub open spec fn is_missing_at(e: ErrorView, path: Seq<char>) -> bool {
    is_missing_key(e) && e.path == path
}

/// How many of the violations are the complaint about a missing required key at
/// a path.
pub open spec fn occurrences(errors: Seq<ErrorView>, path: Seq<char>) -> nat
    decreases errors.len(),
{
    if errors.len() == 0 {
        0
    } else {
        occurrences(errors.drop_last(), path) + if is_missing_at(errors.last(), path) {
            1nat
        } else {
            0nat
        }
    }
}

/// Occurrences in a concatenation are those in its parts.
proof fn lemma_occurrences_add(a: Seq<ErrorView>, b: Seq<ErrorView>, path: Seq<char>)
    ensures
        occurrences(a + b, path) == occurrences(a, path) + occurrences(b, path),
    decreases b.len(),
{
    if b.len() == 0 {
        assert(a + b =~= a);
    } else {
        lemma_occurrences_add(a, b.drop_last(), path);
        assert((a + b).drop_last() =~= a + b.drop_last());
        assert((a + b).last() == b.last());
    }
}

/// A list without the complaint holds it zero times.
proof fn lemma_no_occurrence(errors: Seq<ErrorView>, path: Seq<char>)
    requires
        forall|e: ErrorView| errors.contains(e) ==> !is_missing_at(e, path),
    ensures
        occurrences(errors, path) == 0,
    decreases errors.len(),
{
    if errors.len() > 0 {
        assert(errors.contains(errors.last())) by {
            assert(errors[errors.len() - 1] == errors.last());
        }
        assert forall|e: ErrorView| errors.drop_last().contains(e) implies !is_missing_at(
            e,
            path,
        ) by {
            let i = choose|i: int| 0 <= i < errors.drop_last().len() && errors.drop_last()[i] == e;
            assert(errors[i] == e);
        }
        lemma_no_occurrence(errors.drop_last(), path);
    }
}

/// Whether a declared field is owed the complaint that it is missing: it is
/// required and the object has no entry under its name.
pub open spec fn is_owed(
    entries: Seq<(ConfigValue, ConfigValue)>,
    field: (String, SchemaRule),
) -> bool {
    field.1.required && !has_key(entries, field.0@)
}

/// Among the complaints about the first `upto` declared fields, the one about
/// the declared field at `at` being missing occurs once if the field is among
/// them and is owed it, and not at all otherwise.
proof fn lemma_required_count(
    entries: Seq<(ConfigValue, ConfigValue)>,
    declared: Seq<(String, SchemaRule)>,
    path: Seq<char>,
    at: int,
    upto: nat,
)
    requires
        distinct_names(declared),
        0 <= at < declared.len(),
        upto <= declared.len(),
    ensures
        occurrences(
            required_errors(entries, declared, path, upto),
            field_path(path, declared[at].0@),
        ) == (if at < upto && is_owed(entries, declared[at]) {
            1nat
        } else {
            0nat
        }),
    decreases upto,
{
    let name = declared[at].0@;
    let target = field_path(path, name);
    if upto == 0 {
    } else {
        lemma_required_count(entries, declared, path, at, (upto - 1) as nat);
        lemma_message_lengths();
        let before = required_errors(entries, declared, path, (upto - 1) as nat);
        let other = declared[upto - 1].0@;
        let step = declared_errors(entries, other, declared[upto - 1].1, path);
        lemma_occurrences_add(before, step, target);
        lemma_field_path(path, name);
        lemma_field_path(path, other);
        if upto - 1 == at && is_owed(entries, declared[at]) {
            assert(step.len() == 1);
            assert(step.drop_last() =~= Seq::<ErrorView>::empty());
            assert(occurrences(step.drop_last(), target) == 0);
            assert(step.last() == step[0]);
            assert(is_missing_at(step.last(), target));
            assert(occurrences(step, target) == 1);
        } else {
            if upto - 1 != at {
                assert(other != name);
                assert(field_path(path, other) != target);
            }
            assert forall|e: ErrorView| step.contains(e) implies !is_missing_at(e, target) by {
                assert(e.path == field_path(path, other));
            }
            lemma_no_occurrence(step, target);
        }
    }
}

/// The complaints about the declared fields come first in the list of an
/// object, before anything that its entries yield.
pub proof fn lemma_declared_complaints_come_first(
    entries: Vec<(ConfigValue, ConfigValue)>,
    rule: SchemaRule,
    path: Seq<char>,
    strict: bool,
)
    requires
        rule.data_type == SchemaType::Object,
    ensures
        walk_node(ConfigValue::Mapping(entries), rule, path, strict).errors == declared_complaints(
            entries@,
            rule.keys,
            path,
        ) + walk_entries(
            entries@,
            rule.keys,
            path,
            !strict && rule.allow_unknown_keys,
            entries@.len(),
        ).errors,
{
    let allow_unknown = !strict && rule.allow_unknown_keys;
    assert(walk_node(ConfigValue::Mapping(entries), rule, path, strict) == walk_object(
        entries@,
        rule,
        path,
        allow_unknown,
    ));
}

/// Every declared field gets its due, by position: among the complaints about
/// the declared fields, which come first in the list of an object, the
/// complaint that a field is missing stands exactly once at the field's path
/// where the field is required and absent, and not at all where it is present
/// or optional, whatever the other fields violate.
pub proof fn lemma_declared_field_gets_its_due(
    entries: Seq<(ConfigValue, ConfigValue)>,
    keys: KeyRules,
    path: Seq<char>,
    at: int,
)
    requires
        distinct_names(keys.entries()),
        0 <= at < keys.entries().len(),
    ensures
        occurrences(
            declared_complaints(entries, Some(keys), path),
            field_path(path, keys.entries()[at].0@),
        ) == (if is_owed(entries, keys.entries()[at]) {
            1nat
        } else {
            0nat
        }),
{
    lemma_required_count(entries, keys.entries(), path, at, keys.entries().len());
}

/// In the whole list of an object, the complaint that a declared field is
/// missing stands exactly once at the field's path where the field is required
/// and absent, and not at all where it is present or optional, provided that
/// nothing found in the entries is such a complaint at the same path.
pub proof fn lemma_required_key_complaints(
    entries: Vec<(ConfigValue, ConfigValue)>,
    rule: SchemaRule,
    path: Seq<char>,
    strict: bool,
    at: int,
)
    requires
        rule.data_type == SchemaType::Object,
        rule.keys is Some,
        distinct_names(rule.keys->Some_0.entries()),
        0 <= at < rule.keys->Some_0.entries().len(),
        forall|e: ErrorView|
            walk_entries(
                entries@,
                rule.keys,
                path,
                !strict && rule.allow_unknown_keys,
                entries@.len(),
            ).errors.contains(e) ==> !is_missing_at(
                e,
                field_path(path, rule.keys->Some_0.entries()[at].0@),
            ),
    ensures
        occurrences(
            walk_node(ConfigValue::Mapping(entries), rule, path, strict).errors,
            field_path(path, rule.keys->Some_0.entries()[at].0@),
        ) == (if is_owed(entries@, rule.keys->Some_0.entries()[at]) {
            1nat
        } else {
            0nat
        }),
{
    let keys = rule.keys->Some_0;
    let allow_unknown = !strict && rule.allow_unknown_keys;
    let target = field_path(path, keys.entries()[at].0@);
    let required = declared_complaints(entries@, rule.keys, path);
    let inner = walk_entries(entries@, rule.keys, path, allow_unknown, entries@.len());
    lemma_declared_complaints_come_first(entries, rule, path, strict);
    lemma_declared_field_gets_its_due(entries@, keys, path, at);
    lemma_no_occurrence(inner.errors, target);
    lemma_occurrences_add(required, inner.errors, target);
}

/// No violation found in the entries of an object is the complaint about a
/// missing key at a field of that object whose name holds no dot: a complaint
/// from below an entry lies behind a further dot.
pub proof fn lemma_entries_hold_no_missing(
    entries: Seq<(ConfigValue, ConfigValue)>,
    keys: Option<KeyRules>,
    path: Seq<char>,
    allow_unknown: bool,
    name: Seq<char>,
    upto: nat,
)
    requires
        forall|i: int| 0 <= i < name.len() ==> name[i] != '.',
    ensures
        forall|e: ErrorView|
            walk_entries(entries, keys, path, allow_unknown, upto).errors.contains(e)
                ==> !is_missing_at(e, field_path(path, name)),
    decreases upto,
{
    let target = field_path(path, name);
    if upto == 0 || upto > entries.len() {
    } else {
        lemma_entries_hold_no_missing(
            entries,
            keys,
            path,
            allow_unknown,
            name,
            (upto - 1) as nat,
        );
        lemma_message_lengths();
        let before = walk_entries(entries, keys, path, allow_unknown, (upto - 1) as nat);
        let entry = entries[upto - 1];
        let step = walk_entry(entry, keys, path, allow_unknown);
        assert forall|e: ErrorView|
            walk_entries(entries, keys, path, allow_unknown, upto).errors.contains(
                e,
            ) implies !is_missing_at(e, target) by {
            if before.fault is None {
                lemma_contains_either(before.errors, step.errors, e);
            }
            if !before.errors.contains(e) && is_missing_at(e, target) {
                assert(step.errors.contains(e));
                match entry.0 {
                    ConfigValue::String(key) => {
                        let below = field_path(path, key@);
                        lemma_field_path(path, key@);
                        lemma_field_path(path, name);
                        if let Some(child) = rule_for(keys, key@) {
                            lemma_walk_is_sound(entry.1, child, below, !allow_unknown);
                            assert(sound(e, below, tolerant(child) && !!allow_unknown));
                            let i = choose|i: int|
                                below.len() <= i < e.path.len() && e.path[i] == '.';
                            assert(target.subrange(path.len() as int + 1, target.len() as int)[i
                                - path.len() - 1] == target[i]);
                            assert(name[i - path.len() - 1] == '.');
                        }
                    },
                    _ => {},
                }
            }
        }
    }
}

/// A declared key whose name holds no dot is complained about as missing
/// exactly once at its own path where it is required and absent, and not at
/// all where it is present or optional, whatever else the object holds and
/// whatever its other fields violate.
pub proof fn lemma_missing_required_key_reported_once(
    entries: Vec<(ConfigValue, ConfigValue)>,
    rule: SchemaRule,
    path: Seq<char>,
    strict: bool,
    at: int,
)
    requires
        rule.data_type == SchemaType::Object,
        rule.keys is Some,
        distinct_names(rule.keys->Some_0.entries()),
        0 <= at < rule.keys->Some_0.entries().len(),
        forall|i: int|
            0 <= i < rule.keys->Some_0.entries()[at].0@.len() ==> rule.keys->Some_0.entries()[
                at
            ].0@[i] != '.',
    ensures
        occurrences(
            walk_node(ConfigValue::Mapping(entries), rule, path, strict).errors,
            field_path(path, rule.keys->Some_0.entries()[at].0@),
        ) == (if is_owed(entries@, rule.keys->Some_0.entries()[at]) {
            1nat
        } else {
            0nat
        }),
{
    lemma_entries_hold_no_missing(
        entries@,
        rule.keys,
        path,
        !strict && rule.allow_unknown_keys,
        rule.keys->Some_0.entries()[at].0@,
        entries@.len(),
    );
    lemma_required_key_complaints(entries, rule, path, strict, at);
}

/// Where the field rules are consistent, each of them is.
proof fn lemma_field_is_well_formed(entries: Seq<(String, SchemaRule)>, upto: nat, at: int)
    requires
        0 <= at < upto <= entries.len(),
        fields_well_formed(entries, upto),
    ensures
        well_formed(entries[at].1),
    decreases upto,
{
    if at < upto - 1 {
        lemma_field_is_well_formed(entries, (upto - 1) as nat, at);
    }
}

/// Under consistent field rules the walk over entries does not end at a pattern.
proof fn lemma_entries_walk_to_the_end(
    entries: Seq<(ConfigValue, ConfigValue)>,
    keys: Option<KeyRules>,
    path: Seq<char>,
    allow_unknown: bool,
    upto: nat,
)
    requires
        keys matches Some(declared) ==> fields_well_formed(
            declared.entries(),
            declared.entries().len(),
        ),
    ensures
        walk_entries(entries, keys, path, allow_unknown, upto).fault is None,
    decreases entries, upto,
{
    if upto == 0 || upto > entries.len() {
    } else {
        lemma_entries_walk_to_the_end(entries, keys, path, allow_unknown, (upto - 1) as nat);
        let entry = entries[upto - 1];
        match entry.0 {
            ConfigValue::String(name) => {
                if let Some(child) = rule_for(keys, name@) {
                    let declared = keys->Some_0;
                    lemma_rule_position(declared.entries(), name@);
                    lemma_field_is_well_formed(
                        declared.entries(),
                        declared.entries().len(),
                        rule_position(declared.entries(), name@),
                    );
                    lemma_consistent_schema_walks_to_the_end(
                        entry.1,
                        child,
                        field_path(path, name@),
                        !allow_unknown,
                    );
                }
            },
            _ => {},
        }
        assert(walk_entry(entry, keys, path, allow_unknown).fault is None);
    }
}

/// Under a consistent element rule the walk over elements does not end at a
/// pattern.
proof fn lemma_items_walk_to_the_end(
    items: Seq<ConfigValue>,
    rule: SchemaRule,
    path: Seq<char>,
    upto: nat,
)
    requires
        well_formed(rule),
    ensures
        walk_items(items, rule, path, upto).fault is None,
    decreases items, upto,
{
    if upto == 0 || upto > items.len() {
    } else {
        lemma_items_walk_to_the_end(items, rule, path, (upto - 1) as nat);
        lemma_consistent_schema_walks_to_the_end(
            items[upto - 1],
            rule,
            item_path(path, (upto - 1) as nat),
            false,
        );
    }
}

/// Under a consistent schema the walk never ends at a pattern: every pattern
/// was seen to compile when the schema was checked, so validation answers with
/// a verdict on the document and not with a failure of the schema.
pub proof fn lemma_consistent_schema_walks_to_the_end(
    value: ConfigValue,
    rule: SchemaRule,
    path: Seq<char>,
    strict: bool,
)
    requires
        well_formed(rule),
    ensures
        walk_node(value, rule, path, strict).fault is None,
    decreases value, 0nat,
{
    if type_matches(value, rule.data_type) {
        match rule.data_type {
            SchemaType::Object => match value {
                ConfigValue::Mapping(entries) => {
                    lemma_entries_walk_to_the_end(
                        entries@,
                        rule.keys,
                        path,
                        !strict && rule.allow_unknown_keys,
                        entries@.len(),
                    );
                },
                _ => {},
            },
            SchemaType::List => match (value, rule.items) {
                (ConfigValue::Sequence(items), Some(inner)) => {
                    lemma_items_walk_to_the_end(items@, *inner, path, items@.len());
                },
                _ => {},
            },
            _ => {},
        }
    }
}

/// Under a consistent schema, strict mode reports every key of an object that
/// has no rule, whatever the rule of the object says of unknown keys.
pub proof fn lemma_strict_mode_overrides_the_rule(
    entries: Vec<(ConfigValue, ConfigValue)>,
    rule: SchemaRule,
    path: Seq<char>,
    at: int,
    name: String,
)
    requires
        well_formed(rule),
        rule.data_type == SchemaType::Object,
        0 <= at < entries@.len(),
        entries@[at].0 == ConfigValue::String(name),
        rule_for(rule.keys, name@) is None,
    ensures
        walk_node(ConfigValue::Mapping(entries), rule, path, true).errors.contains(
            unknown_key(path, name@),
        ),
{
    lemma_consistent_schema_walks_to_the_end(ConfigValue::Mapping(entries), rule, path, true);
    lemma_strict_reports_unknown_keys(entries, rule, path, at, name);
}

/// What an element yields stays in the list of a walk over elements that does
/// not end at a pattern.
proof fn lemma_item_errors_stay(
    items: Seq<ConfigValue>,
    rule: SchemaRule,
    path: Seq<char>,
    at: int,
    upto: nat,
    e: ErrorView,
)
    requires
        0 <= at < upto <= items.len(),
        walk_items(items, rule, path, upto).fault is None,
        walk_node(items[at], rule, item_path(path, at as nat), false).errors.contains(e),
    ensures
        walk_items(items, rule, path, upto).errors.contains(e),
    decreases upto,
{
    let before = walk_items(items, rule, path, (upto - 1) as nat);
    let step = walk_node(items[upto - 1], rule, item_path(path, (upto - 1) as nat), false);
    let all = walk_items(items, rule, path, upto);
    assert(before.fault is None);
    assert(all.errors == before.errors + step.errors);
    if at == upto - 1 {
        let i = choose|i: int| 0 <= i < step.errors.len() && step.errors[i] == e;
        assert(all.errors[before.errors.len() + i] == e);
    } else {
        lemma_item_errors_stay(items, rule, path, at, (upto - 1) as nat, e);
        let i = choose|i: int| 0 <= i < before.errors.len() && before.errors[i] == e;
        assert(all.errors[i] == e);
    }
}

/// No violation hides another: every violation found in an entry of an object
/// is in the list of the object, whatever the entries before it violate, as
/// long as the walk does not end at a pattern.
pub proof fn lemma_every_entry_is_reported(
    entries: Vec<(ConfigValue, ConfigValue)>,
    rule: SchemaRule,
    path: Seq<char>,
    strict: bool,
    at: int,
    e: ErrorView,
)
    requires
        rule.data_type == SchemaType::Object,
        0 <= at < entries@.len(),
        walk_node(ConfigValue::Mapping(entries), rule, path, strict).fault is None,
        walk_entry(
            entries@[at],
            rule.keys,
            path,
            !strict && rule.allow_unknown_keys,
        ).errors.contains(e),
    ensures
        walk_node(ConfigValue::Mapping(entries), rule, path, strict).errors.contains(e),
{
    let allow_unknown = !strict && rule.allow_unknown_keys;
    let walk = walk_node(ConfigValue::Mapping(entries), rule, path, strict);
    assert(walk == walk_object(entries@, rule, path, allow_unknown));
    let inner = walk_entries(entries@, rule.keys, path, allow_unknown, entries@.len());
    lemma_entry_errors_stay(entries@, rule.keys, path, allow_unknown, at, entries@.len(), e);
    let i = choose|i: int| 0 <= i < inner.errors.len() && inner.errors[i] == e;
    let required = declared_complaints(entries@, rule.keys, path);
    assert(walk.errors == required + inner.errors);
    assert(walk.errors[required.len() + i] == e);
}

/// No violation hides another: every violation found in an element of a list is
/// in the list's own list of violations, whatever the elements before it
/// violate, as long as the walk does not end at a pattern.
pub proof fn lemma_every_element_is_reported(
    items: Vec<ConfigValue>,
    rule: SchemaRule,
    path: Seq<char>,
    strict: bool,
    at: int,
    e: ErrorView,
)
    requires
        rule.data_type == SchemaType::List,
        rule.items is Some,
        0 <= at < items@.len(),
        walk_node(ConfigValue::Sequence(items), rule, path, strict).fault is None,
        walk_node(
            items@[at],
            *rule.items->Some_0,
            item_path(path, at as nat),
            false,
        ).errors.contains(e),
    ensures
        walk_node(ConfigValue::Sequence(items), rule, path, strict).errors.contains(e),
{
    let inner_rule = *rule.items->Some_0;
    let walk = walk_node(ConfigValue::Sequence(items), rule, path, strict);
    let lengths = length_errors(rule, path, items@.len(), "List"@, "items"@);
    let inner = walk_items(items@, inner_rule, path, items@.len());
    assert(walk.errors == lengths + inner.errors);
    lemma_item_errors_stay(items@, inner_rule, path, at, items@.len(), e);
    let i = choose|i: int| 0 <= i < inner.errors.len() && inner.errors[i] == e;
    assert(walk.errors[lengths.len() + i] == e);
}

/// What the walk makes of an entry whose key is a string without a rule: the
/// complaint about the unknown key and nothing else where unknown keys are
/// refused, and nothing at all where they are allowed.
pub proof fn lemma_unknown_key_is_reported_once(
    entry: (ConfigValue, ConfigValue),
    keys: Option<KeyRules>,
    path: Seq<char>,
    allow_unknown: bool,
    name: String,
)
    requires
        entry.0 == ConfigValue::String(name),
        rule_for(keys, name@) is None,
    ensures
        walk_entry(entry, keys, path, allow_unknown) == (if allow_unknown {
            crate::validation::quiet()
        } else {
            found(seq![unknown_key(path, name@)])
        }),
{
}

/// Whether two violations agree in everything but the line.
pub open spec fn same_but_line(a: ErrorView, b: ErrorView) -> bool {
    a.path == b.path && a.message == b.message && a.expected == b.expected && a.actual
        == b.actual && a.description == b.description
}

/// The source text of a document decides the lines of its violations and
/// nothing else: two documents with the same data get lists of the same length
/// that agree at every place in everything but the line, and a document
/// without its text gets no line at all.
pub proof fn lemma_only_lines_depend_on_the_text(
    first: Config,
    second: Config,
    schema: Schema,
    strict: bool,
)
    requires
        first.data == second.data,
    ensures
        crate::validation::findings(first, schema, strict).len() == crate::validation::findings(
            second,
            schema,
            strict,
        ).len(),
        forall|i: int|
            0 <= i < crate::validation::findings(first, schema, strict).len() ==> same_but_line(
                #[trigger] crate::validation::findings(first, schema, strict)[i],
                crate::validation::findings(second, schema, strict)[i],
            ),
        first.content is None ==> forall|i: int|
            0 <= i < crate::validation::findings(first, schema, strict).len() ==> (
            #[trigger] crate::validation::findings(first, schema, strict)[i]).line is None,
{
    let walk = walk_node(first.data, schema.root, Seq::empty(), strict);
    lemma_walk_is_sound(first.data, schema.root, Seq::empty(), strict);
    assert forall|i: int| 0 <= i < walk.errors.len() implies (#[trigger] walk.errors[i]).line
        is None by {
        assert(walk.errors.contains(walk.errors[i]));
    }
}

} // verus!
