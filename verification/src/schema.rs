//! The schema: a tree of typed rules, and the check that a rule tree is consistent.

use crate::error::{message_of, ConfigGuardError};
use crate::number::{bits_lt, float_lt};
use crate::pattern::{compile_fault, pattern_error};
use crate::text::{contains_text, text_contains};
use crate::value::{debug_string, debug_text, ConfigValue};
use vstd::prelude::*;

verus! {

/// The type that a rule asks of a value.
#[derive(Debug, Clone, Copy, PartialEq, Eq, Structural)]
pub enum SchemaType {
    String,
    Integer,
    Float,
    Boolean,
    Object,
    List,
    Any,
    Null,
}

/// The rules of an object's fields, by field name, in the order in which they
/// were declared. No name occurs twice in a collection built with `insert`.
#[derive(Debug)]
pub struct KeyRules {
    entries: Vec<(String, SchemaRule)>,
}

/// One node of the schema tree.
#[derive(Debug)]
pub struct SchemaRule {
    /// The type that the value must have.
    pub data_type: SchemaType,
    /// A description, carried into the violations of this rule.
    pub description: Option<String>,
    /// Whether the field must be present in its object.
    pub required: bool,
    /// Object only: the rules of the fields.
    pub keys: Option<KeyRules>,
    /// Object only: whether fields without a rule are tolerated.
    pub allow_unknown_keys: bool,
    /// List only: the rule of every element.
    pub items: Option<Box<SchemaRule>>,
    /// String and list: the least length.
    pub min_length: Option<usize>,
    /// String and list: the greatest length.
    pub max_length: Option<usize>,
    /// String only: a regular expression that the text must match.
    pub pattern: Option<String>,
    /// String and numbers: the values that are allowed.
    pub enum_values: Option<Vec<ConfigValue>>,
    /// Numbers only: the least value, inclusive.
    pub min: Option<ConfigValue>,
    /// Numbers only: the greatest value, inclusive.
    pub max: Option<ConfigValue>,
}

/// A schema: the rule of the document's root.
#[derive(Debug)]
pub struct Schema {
    pub root: SchemaRule,
}

/// Unknown fields are tolerated unless a rule says otherwise.
pub fn default_allow_unknown_keys() -> (r: bool)
    ensures
        r,
{
    true
}

/// The position of the first rule under `name`, or the number of entries where
/// there is none.
pub open spec fn rule_position(entries: Seq<(String, SchemaRule)>, name: Seq<char>) -> int
    decreases entries.len(),
{
    if entries.len() == 0 {
        0
    } else if entries[0].0@ == name {
        0
    } else {
        1 + rule_position(entries.subrange(1, entries.len() as int), name)
    }
}

/// The position found is the first one under the name: no entry before it
/// carries the name, and the entry at it does where it lies within the entries.
pub proof fn lemma_rule_position(entries: Seq<(String, SchemaRule)>, name: Seq<char>)
    ensures
        0 <= rule_position(entries, name) <= entries.len(),
        forall|i: int| 0 <= i < rule_position(entries, name) ==> entries[i].0@ != name,
        rule_position(entries, name) < entries.len() ==> entries[rule_position(
            entries,
            name,
        )].0@ == name,
    decreases entries.len(),
{
    if entries.len() > 0 && entries[0].0@ != name {
        let rest = entries.subrange(1, entries.len() as int);
        lemma_rule_position(rest, name);
        assert forall|i: int| 0 <= i < rule_position(entries, name) implies entries[i].0@
            != name by {
            if i > 0 {
                assert(entries[i] == rest[i - 1]);
            }
        }
        if rule_position(entries, name) < entries.len() {
            assert(entries[rule_position(entries, name)] == rest[rule_position(rest, name)]);
        }
    }
}

/// Whether no name occurs twice.
pub open spec fn distinct_names(entries: Seq<(String, SchemaRule)>) -> bool {
    forall|i: int, j: int|
        0 <= i < j < entries.len() ==> (#[trigger] entries[i]).0@ != (#[trigger] entries[j]).0@
}

impl KeyRules {
    /// The entries, name and rule, in declaration order.
    pub closed spec fn entries(&self) -> Seq<(String, SchemaRule)> {
        self.entries@
    }

    /// Whether a rule stands under `name`.
    pub open spec fn has(&self, name: Seq<char>) -> bool {
        rule_position(self.entries(), name) < self.entries().len()
    }

    /// The rule under `name`, where there is one.
    pub open spec fn rule_of(&self, name: Seq<char>) -> SchemaRule
        recommends
            self.has(name),
    {
        self.entries()[rule_position(self.entries(), name)].1
    }

    /// An empty collection.
    pub fn new() -> (r: KeyRules)
        ensures
            r.entries().len() == 0,
            distinct_names(r.entries()),
    {
        KeyRules { entries: Vec::new() }
    }

    /// The number of rules.
    pub fn len(&self) -> (n: usize)
        ensures
            n == self.entries().len(),
    {
        self.entries.len()
    }

    /// Whether there is no rule at all.
    pub fn is_empty(&self) -> (r: bool)
        ensures
            r == (self.entries().len() == 0),
    {
        self.entries.len() == 0
    }

    /// The name of the entry at a position.
    pub fn name_at(&self, i: usize) -> (r: &String)
        requires
            i < self.entries().len(),
        ensures
            *r == self.entries()[i as int].0,
    {
        &self.entries[i].0
    }

    /// The rule of the entry at a position.
    pub fn rule_at(&self, i: usize) -> (r: &SchemaRule)
        requires
            i < self.entries().len(),
        ensures
            *r == self.entries()[i as int].1,
    {
        &self.entries[i].1
    }

    /// The position of the first rule under a name, or the number of rules.
    fn position(&self, name: &str) -> (r: usize)
        ensures
            r == rule_position(self.entries(), name@),
            r <= self.entries().len(),
    {
        proof {
            lemma_rule_position(self.entries@, name@);
        }
        let wanted = name.to_string();
        let mut i: usize = 0;
        while i < self.entries.len()
            invariant
                i <= self.entries.len(),
                wanted@ == name@,
                forall|j: int| 0 <= j < i ==> self.entries@[j].0@ != name@,
                0 <= rule_position(self.entries@, name@) <= self.entries.len(),
                forall|j: int|
                    0 <= j < rule_position(self.entries@, name@) ==> self.entries@[j].0@
                        != name@,
                rule_position(self.entries@, name@) < self.entries.len()
                    ==> self.entries@[rule_position(self.entries@, name@)].0@ == name@,
            decreases self.entries.len() - i,
        {
            if self.entries[i].0 == wanted {
                return i;
            }
            i = i + 1;
        }
        i
    }

    /// The rule under a name.
    pub fn get(&self, name: &str) -> (r: Option<&SchemaRule>)
        ensures
            match r {
                Some(rule) => self.has(name@) && *rule == self.rule_of(name@),
                None => !self.has(name@),
            },
    {
        let i = self.position(name);
        if i < self.entries.len() {
            Some(&self.entries[i].1)
        } else {
            None
        }
    }

    /// Whether a rule stands under a name.
    pub fn contains_key(&self, name: &str) -> (r: bool)
        ensures
            r == self.has(name@),
    {
        let i = self.position(name);
        i < self.entries.len()
    }

    /// Puts a rule under a name: in the place of the rule that stood under it, or
    /// behind the last entry. Hands back the rule that was replaced.
    pub fn insert(&mut self, name: String, rule: SchemaRule) -> (r: Option<SchemaRule>)
        ensures
            old(self).has(name@) ==> r == Some(old(self).rule_of(name@)) && final(self).entries()
                == old(self).entries().update(
                rule_position(old(self).entries(), name@),
                (name, rule),
            ),
            !old(self).has(name@) ==> r is None && final(self).entries() == old(
                self,
            ).entries().push((name, rule)),
            distinct_names(old(self).entries()) ==> distinct_names(final(self).entries()),
    {
        let i = self.position(name.as_str());
        proof {
            lemma_rule_position(self.entries@, name@);
        }
        if i < self.entries.len() {
            let replaced = self.entries.remove(i);
            self.entries.insert(i, (name, rule));
            assert(self.entries@ =~= old(self).entries@.update(i as int, (name, rule)));
            Some(replaced.1)
        } else {
            self.entries.push((name, rule));
            None
        }
    }
}

/// The name of a type as diagnostics write it.
pub open spec fn type_label(t: SchemaType) -> Seq<char> {
    match t {
        SchemaType::String => "String"@,
        SchemaType::Integer => "Integer"@,
        SchemaType::Float => "Float"@,
        SchemaType::Boolean => "Boolean"@,
        SchemaType::Object => "Object"@,
        SchemaType::List => "List"@,
        SchemaType::Any => "Any"@,
        SchemaType::Null => "Null"@,
    }
}

impl SchemaType {
    /// The name of the type as diagnostics write it.
    pub fn label(&self) -> (r: String)
        ensures
            r@ == type_label(*self),
    {
        match self {
            SchemaType::String => "String".to_string(),
            SchemaType::Integer => "Integer".to_string(),
            SchemaType::Float => "Float".to_string(),
            SchemaType::Boolean => "Boolean".to_string(),
            SchemaType::Object => "Object".to_string(),
            SchemaType::List => "List".to_string(),
            SchemaType::Any => "Any".to_string(),
            SchemaType::Null => "Null".to_string(),
        }
    }

    /// Whether the type is one of the two numeric types.
    pub open spec fn is_numeric(self) -> bool {
        self == SchemaType::Integer || self == SchemaType::Float
    }
}

/// A group of constraint fields that only some types may carry.
#[derive(Debug, Clone, Copy, PartialEq, Eq, Structural)]
pub enum Constraint {
    Keys,
    Items,
    Lengths,
    Pattern,
    Range,
    Enum,
}

/// Which constraint fields a type may carry.
pub open spec fn allowed(c: Constraint, t: SchemaType) -> bool {
    match c {
        Constraint::Keys => t == SchemaType::Object,
        Constraint::Items => t == SchemaType::List,
        Constraint::Lengths => t == SchemaType::String || t == SchemaType::List,
        Constraint::Pattern => t == SchemaType::String,
        Constraint::Range => t.is_numeric(),
        Constraint::Enum => t == SchemaType::String || t.is_numeric(),
    }
}

/// Whether a rule carries a constraint field of the group.
pub open spec fn present(rule: SchemaRule, c: Constraint) -> bool {
    match c {
        Constraint::Keys => rule.keys is Some,
        Constraint::Items => rule.items is Some,
        Constraint::Lengths => rule.min_length is Some || rule.max_length is Some,
        Constraint::Pattern => rule.pattern is Some,
        Constraint::Range => rule.min is Some || rule.max is Some,
        Constraint::Enum => rule.enum_values is Some,
    }
}

/// Whether a rule carries a constraint field that its type may not carry.
pub open spec fn misplaced(rule: SchemaRule, c: Constraint) -> bool {
    present(rule, c) && !allowed(c, rule.data_type)
}

/// The first group, in the order in which they are checked, of which the rule
/// carries a field that its type may not carry.
pub open spec fn first_misplaced(rule: SchemaRule) -> Option<Constraint> {
    if misplaced(rule, Constraint::Keys) {
        Some(Constraint::Keys)
    } else if misplaced(rule, Constraint::Items) {
        Some(Constraint::Items)
    } else if misplaced(rule, Constraint::Lengths) {
        Some(Constraint::Lengths)
    } else if misplaced(rule, Constraint::Pattern) {
        Some(Constraint::Pattern)
    } else if misplaced(rule, Constraint::Range) {
        Some(Constraint::Range)
    } else if misplaced(rule, Constraint::Enum) {
        Some(Constraint::Enum)
    } else {
        None
    }
}

/// Where the field belongs, as the message for a misplaced field says it.
pub open spec fn belongs_text(c: Constraint, t: SchemaType) -> Seq<char> {
    match c {
        Constraint::Keys => "'keys' is only valid for type 'object'"@,
        Constraint::Items => "'items' is only valid for type 'list'"@,
        Constraint::Lengths => if t == SchemaType::Object {
            "'min_length' and 'max_length' are not valid for type 'object'"@
        } else if t == SchemaType::Any {
            "'min_length' and 'max_length' are only valid for specific types"@
        } else {
            "'min_length' and 'max_length' are only valid for type 'string' or 'list'"@
        },
        Constraint::Pattern => "'pattern' is only valid for type 'string'"@,
        Constraint::Range => "'min' and 'max' are only valid for numeric types"@,
        Constraint::Enum => "'enum' is only valid for type 'string' and numeric types"@,
    }
}

/// The type on which the field was found, as the message for a misplaced field
/// says it; nothing for a boolean or a null rule.
pub open spec fn found_on_text(c: Constraint, t: SchemaType) -> Seq<char> {
    match t {
        SchemaType::Object => if c == Constraint::Lengths {
            ""@
        } else {
            ", not 'object'"@
        },
        SchemaType::List => ", not 'list'"@,
        SchemaType::String => ", not 'string'"@,
        SchemaType::Integer | SchemaType::Float => ", not numeric type"@,
        SchemaType::Any => ", not 'any'"@,
        SchemaType::Boolean | SchemaType::Null => ""@,
    }
}

/// The part of a message that says which rule it is about: the rule's
/// description, or its type.
pub open spec fn context_text(rule: SchemaRule) -> Seq<char> {
    match rule.description {
        Some(d) => "for field '"@ + d@ + "'"@,
        None => "for field of type "@ + type_label(rule.data_type),
    }
}

/// What is wrong with a schema: the message, and whether it concerns a pattern.
pub struct SchemaFault {
    /// Whether the fault is a pattern that does not compile.
    pub pattern: bool,
    /// The message, without the words that name the kind of failure.
    pub text: Seq<char>,
}

/// The message of a fault as a failure shows it.
pub open spec fn fault_message(f: SchemaFault) -> Seq<char> {
    if f.pattern {
        "Invalid pattern: "@ + f.text
    } else {
        "Schema error: "@ + f.text
    }
}

/// Whether a failure reports the fault.
pub open spec fn reports(e: ConfigGuardError, f: SchemaFault) -> bool {
    if f.pattern {
        e matches ConfigGuardError::Pattern(m) && m@ == f.text
    } else {
        e matches ConfigGuardError::Schema(m) && m@ == f.text
    }
}

/// The fault of a misplaced field.
pub open spec fn misplaced_fault(rule: SchemaRule, c: Constraint) -> SchemaFault {
    SchemaFault {
        pattern: false,
        text: belongs_text(c, rule.data_type) + found_on_text(c, rule.data_type) + " "@
            + context_text(rule),
    }
}

/// Whether the least length lies above the greatest.
pub open spec fn lengths_inverted(rule: SchemaRule) -> bool {
    rule.min_length matches Some(lo) && rule.max_length matches Some(hi) && lo > hi
}

/// The fault of a least length above the greatest.
pub open spec fn lengths_fault(rule: SchemaRule) -> SchemaFault {
    SchemaFault {
        pattern: false,
        text: "'min_length' cannot be greater than 'max_length' "@ + context_text(rule),
    }
}

/// The fault in the bounds of a numeric rule that has both: a bound that is no
/// number, or a least value above the greatest.
pub open spec fn range_fault(rule: SchemaRule) -> Option<SchemaFault> {
    match (rule.min, rule.max) {
        (Some(lo), Some(hi)) => match (lo, hi) {
            (ConfigValue::Number(a), ConfigValue::Number(b)) => if float_lt(
                b.pattern(),
                a.pattern(),
            ) {
                Some(
                    SchemaFault {
                        pattern: false,
                        text: "'min' ("@ + a.shown() + ") cannot be greater than 'max' ("@
                            + b.shown() + ") "@ + context_text(rule),
                    },
                )
            } else {
                None
            },
            _ => Some(
                SchemaFault {
                    pattern: false,
                    text: "Non-numeric values used for 'min'/'max' in schema "@ + context_text(
                        rule,
                    ) + " - min: "@ + debug_text(lo) + ", max: "@ + debug_text(hi),
                },
            ),
        },
        _ => None,
    }
}

/// The fault of a pattern that does not compile.
pub open spec fn pattern_fault(rule: SchemaRule) -> Option<SchemaFault> {
    match rule.pattern {
        Some(p) => match pattern_error(p@) {
            Some(message) => Some(
                SchemaFault {
                    pattern: true,
                    text: "Invalid regex pattern '"@ + p@ + "' "@ + context_text(rule) + ": "@
                        + message,
                },
            ),
            None => None,
        },
        None => None,
    }
}

/// The fault of a field's rule, reported from the object that declares the field.
pub open spec fn in_key(name: Seq<char>, inner: SchemaFault) -> SchemaFault {
    SchemaFault {
        pattern: false,
        text: "Invalid schema rule for key '"@ + name + "': "@ + fault_message(inner),
    }
}

/// The fault of the element rule, reported from the list.
pub open spec fn in_items(rule: SchemaRule, inner: SchemaFault) -> SchemaFault {
    SchemaFault {
        pattern: false,
        text: "Invalid schema rule for list items "@ + context_text(rule) + ": "@
            + fault_message(inner),
    }
}

/// The first fault of a rule tree in the order in which it is checked, or `None`
/// for a consistent one. An object's fields come before the object's own
/// constraints; a list's element rule comes after the list's misplaced fields.
pub open spec fn first_fault(rule: SchemaRule) -> Option<SchemaFault>
    decreases rule, 0nat,
{
    match rule.data_type {
        SchemaType::Object => match rule.keys {
            Some(keys) => match keys_fault(keys.entries(), keys.entries().len()) {
                Some(f) => Some(f),
                None => own_fault(rule),
            },
            None => own_fault(rule),
        },
        SchemaType::List => match first_misplaced(rule) {
            Some(c) => Some(misplaced_fault(rule, c)),
            None => match rule.items {
                Some(inner) => match first_fault(*inner) {
                    Some(f) => Some(in_items(rule, f)),
                    None => own_fault(rule),
                },
                None => own_fault(rule),
            },
        },
        _ => own_fault(rule),
    }
}

/// The first fault of a rule that does not lie in its children.
pub open spec fn own_fault(rule: SchemaRule) -> Option<SchemaFault> {
    match first_misplaced(rule) {
        Some(c) => Some(misplaced_fault(rule, c)),
        None => if lengths_inverted(rule) {
            Some(lengths_fault(rule))
        } else if rule.data_type == SchemaType::String {
            pattern_fault(rule)
        } else if rule.data_type.is_numeric() {
            range_fault(rule)
        } else {
            None
        },
    }
}

/// The first fault among the first `upto` field rules.
pub open spec fn keys_fault(entries: Seq<(String, SchemaRule)>, upto: nat) -> Option<
    SchemaFault,
>
    decreases entries, upto,
{
    if upto == 0 || upto > entries.len() {
        None
    } else {
        match keys_fault(entries, (upto - 1) as nat) {
            Some(f) => Some(f),
            None => match first_fault(entries[upto - 1].1) {
                Some(f) => Some(in_key(entries[upto - 1].0@, f)),
                None => None,
            },
        }
    }
}

/// Whether a rule tree is consistent: every node carries only the constraint
/// fields of its type, no least length lies above the greatest, the bounds of a
/// numeric rule that has both are numbers in order, every pattern compiles, and
/// the rules of an object's fields and of a list's elements are consistent too.
pub open spec fn well_formed(rule: SchemaRule) -> bool
    decreases rule, 0nat,
{
    &&& forall|c: Constraint| !misplaced(rule, c)
    &&& !lengths_inverted(rule)
    &&& rule.data_type == SchemaType::String ==> pattern_fault(rule) is None
    &&& rule.data_type.is_numeric() ==> range_fault(rule) is None
    &&& rule.data_type == SchemaType::Object ==> (rule.keys matches Some(keys)
        ==> fields_well_formed(keys.entries(), keys.entries().len()))
    &&& rule.data_type == SchemaType::List ==> (rule.items matches Some(inner) ==> well_formed(
        *inner,
    ))
}

/// Whether the first `upto` field rules are consistent.
pub open spec fn fields_well_formed(entries: Seq<(String, SchemaRule)>, upto: nat) -> bool
    decreases entries, upto,
{
    if upto == 0 || upto > entries.len() {
        true
    } else {
        fields_well_formed(entries, (upto - 1) as nat) && well_formed(entries[upto - 1].1)
    }
}

/// A rule tree has no fault exactly when it is consistent.
pub proof fn lemma_fault_free_is_well_formed(rule: SchemaRule)
    ensures
        first_fault(rule) is None <==> well_formed(rule),
    decreases rule, 0nat,
{
    assert((forall|c: Constraint| !misplaced(rule, c)) <==> first_misplaced(rule) is None) by {
        if first_misplaced(rule) is None {
            assert forall|c: Constraint| !misplaced(rule, c) by {
                match c {
                    Constraint::Keys => {},
                    Constraint::Items => {},
                    Constraint::Lengths => {},
                    Constraint::Pattern => {},
                    Constraint::Range => {},
                    Constraint::Enum => {},
                }
            }
        }
    }
    match rule.data_type {
        SchemaType::Object => {
            if let Some(keys) = rule.keys {
                lemma_fields_fault_free(keys.entries(), keys.entries().len());
            }
        },
        SchemaType::List => {
            if let Some(inner) = rule.items {
                lemma_fault_free_is_well_formed(*inner);
            }
        },
        _ => {},
    }
}

/// The first field rules have no fault exactly when they are consistent.
proof fn lemma_fields_fault_free(entries: Seq<(String, SchemaRule)>, upto: nat)
    ensures
        keys_fault(entries, upto) is None <==> fields_well_formed(entries, upto),
    decreases entries, upto,
{
    if upto == 0 || upto > entries.len() {
    } else {
        lemma_fields_fault_free(entries, (upto - 1) as nat);
        lemma_fault_free_is_well_formed(entries[upto - 1].1);
    }
}

/// Whether the result of a check reports exactly the given fault, or none.
pub open spec fn answers(r: Result<(), ConfigGuardError>, fault: Option<SchemaFault>) -> bool {
    match fault {
        None => r is Ok,
        Some(f) => r matches Err(e) && reports(e, f),
    }
}

/// The words that say which rule a message is about.
fn context(rule: &SchemaRule) -> (r: String)
    ensures
        r@ == context_text(*rule),
{
    match &rule.description {
        Some(d) => {
            let mut r = "for field '".to_string();
            r.append(d.as_str());
            r.append("'");
            r
        },
        None => {
            let mut r = "for field of type ".to_string();
            let label = rule.data_type.label();
            r.append(label.as_str());
            r
        },
    }
}

/// The words that say where a misplaced field belongs.
fn belongs(c: Constraint, t: SchemaType) -> (r: String)
    ensures
        r@ == belongs_text(c, t),
{
    match c {
        Constraint::Keys => "'keys' is only valid for type 'object'".to_string(),
        Constraint::Items => "'items' is only valid for type 'list'".to_string(),
        Constraint::Lengths => {
            if t == SchemaType::Object {
                "'min_length' and 'max_length' are not valid for type 'object'".to_string()
            } else if t == SchemaType::Any {
                "'min_length' and 'max_length' are only valid for specific types".to_string()
            } else {
                "'min_length' and 'max_length' are only valid for type 'string' or 'list'".to_string()
            }
        },
        Constraint::Pattern => "'pattern' is only valid for type 'string'".to_string(),
        Constraint::Range => "'min' and 'max' are only valid for numeric types".to_string(),
        Constraint::Enum => "'enum' is only valid for type 'string' and numeric types".to_string(),
    }
}

/// The words that say on which type a misplaced field was found.
fn found_on(c: Constraint, t: SchemaType) -> (r: String)
    ensures
        r@ == found_on_text(c, t),
{
    match t {
        SchemaType::Object => {
            if c == Constraint::Lengths {
                "".to_string()
            } else {
                ", not 'object'".to_string()
            }
        },
        SchemaType::List => ", not 'list'".to_string(),
        SchemaType::String => ", not 'string'".to_string(),
        SchemaType::Integer | SchemaType::Float => ", not numeric type".to_string(),
        SchemaType::Any => ", not 'any'".to_string(),
        SchemaType::Boolean | SchemaType::Null => "".to_string(),
    }
}

/// Whether a type may carry the fields of a group.
fn type_allows(c: Constraint, t: SchemaType) -> (r: bool)
    ensures
        r == allowed(c, t),
{
    let numeric = t == SchemaType::Integer || t == SchemaType::Float;
    match c {
        Constraint::Keys => t == SchemaType::Object,
        Constraint::Items => t == SchemaType::List,
        Constraint::Lengths => t == SchemaType::String || t == SchemaType::List,
        Constraint::Pattern => t == SchemaType::String,
        Constraint::Range => numeric,
        Constraint::Enum => t == SchemaType::String || numeric,
    }
}

/// The first group of which the rule carries a field that its type may not carry.
fn find_misplaced(rule: &SchemaRule) -> (r: Option<Constraint>)
    ensures
        r == first_misplaced(*rule),
{
    let t = rule.data_type;
    if rule.keys.is_some() && !type_allows(Constraint::Keys, t) {
        Some(Constraint::Keys)
    } else if rule.items.is_some() && !type_allows(Constraint::Items, t) {
        Some(Constraint::Items)
    } else if (rule.min_length.is_some() || rule.max_length.is_some()) && !type_allows(
        Constraint::Lengths,
        t,
    ) {
        Some(Constraint::Lengths)
    } else if rule.pattern.is_some() && !type_allows(Constraint::Pattern, t) {
        Some(Constraint::Pattern)
    } else if (rule.min.is_some() || rule.max.is_some()) && !type_allows(Constraint::Range, t) {
        Some(Constraint::Range)
    } else if rule.enum_values.is_some() && !type_allows(Constraint::Enum, t) {
        Some(Constraint::Enum)
    } else {
        None
    }
}

/// The failure for a misplaced field.
fn misplaced_error(rule: &SchemaRule, c: Constraint) -> (e: ConfigGuardError)
    ensures
        reports(e, misplaced_fault(*rule, c)),
{
    let mut text = belongs(c, rule.data_type);
    let found = found_on(c, rule.data_type);
    text.append(found.as_str());
    text.append(" ");
    let ctx = context(rule);
    text.append(ctx.as_str());
    ConfigGuardError::Schema(text)
}

/// Checks the bounds of a numeric rule that has both.
fn check_range(rule: &SchemaRule) -> (r: Result<(), ConfigGuardError>)
    ensures
        answers(r, range_fault(*rule)),
{
    match (&rule.min, &rule.max) {
        (Some(lo), Some(hi)) => {
            match (lo, hi) {
                (ConfigValue::Number(a), ConfigValue::Number(b)) => {
                    if bits_lt(b.to_bits(), a.to_bits()) {
                        let mut text = "'min' (".to_string();
                        let shown_min = a.to_text();
                        text.append(shown_min.as_str());
                        text.append(") cannot be greater than 'max' (");
                        let shown_max = b.to_text();
                        text.append(shown_max.as_str());
                        text.append(") ");
                        let ctx = context(rule);
                        text.append(ctx.as_str());
                        Err(ConfigGuardError::Schema(text))
                    } else {
                        Ok(())
                    }
                },
                _ => {
                    let mut text = "Non-numeric values used for 'min'/'max' in schema ".to_string();
                    let ctx = context(rule);
                    text.append(ctx.as_str());
                    text.append(" - min: ");
                    let shown_min = debug_string(lo);
                    text.append(shown_min.as_str());
                    text.append(", max: ");
                    let shown_max = debug_string(hi);
                    text.append(shown_max.as_str());
                    Err(ConfigGuardError::Schema(text))
                },
            }
        },
        _ => Ok(()),
    }
}

/// The fault of a pattern, given what compiling it came to: none where it
/// compiled, else the pattern failure with the pattern, the rule and the
/// compiler's message.
pub open spec fn compile_outcome_fault(
    rule: SchemaRule,
    pattern: Seq<char>,
    outcome: Option<Seq<char>>,
) -> Option<SchemaFault> {
    match outcome {
        Some(message) => Some(
            SchemaFault {
                pattern: true,
                text: "Invalid regex pattern '"@ + pattern + "' "@ + context_text(rule) + ": "@
                    + message,
            },
        ),
        None => None,
    }
}

/// Judges a pattern of a rule by what compiling it came to: `None` for a
/// pattern that compiled, else the compiler's message.
pub fn judge_compiled(rule: &SchemaRule, pattern: &str, outcome: Option<String>) -> (r: Result<
    (),
    ConfigGuardError,
>)
    ensures
        answers(r, compile_outcome_fault(*rule, pattern@, crate::validation::text_of(outcome))),
{
    match outcome {
        Some(message) => {
            let mut text = "Invalid regex pattern '".to_string();
            text.append(pattern);
            text.append("' ");
            let ctx = context(rule);
            text.append(ctx.as_str());
            text.append(": ");
            text.append(message.as_str());
            Err(ConfigGuardError::Pattern(text))
        },
        None => Ok(()),
    }
}

/// Checks that the pattern of a string rule compiles.
fn check_pattern(rule: &SchemaRule) -> (r: Result<(), ConfigGuardError>)
    ensures
        answers(r, pattern_fault(*rule)),
{
    match &rule.pattern {
        Some(p) => {
            let outcome = compile_fault(p.as_str());
            judge_compiled(rule, p.as_str(), outcome)
        },
        None => Ok(()),
    }
}

/// Checks what a rule asks of its own node, leaving out the rules below it.
fn check_own(rule: &SchemaRule) -> (r: Result<(), ConfigGuardError>)
    ensures
        answers(r, own_fault(*rule)),
{
    match find_misplaced(rule) {
        Some(c) => {
            return Err(misplaced_error(rule, c));
        },
        None => {},
    }
    let inverted = match (rule.min_length, rule.max_length) {
        (Some(lo), Some(hi)) => lo > hi,
        _ => false,
    };
    if inverted {
        let mut text = "'min_length' cannot be greater than 'max_length' ".to_string();
        let ctx = context(rule);
        text.append(ctx.as_str());
        return Err(ConfigGuardError::Schema(text));
    }
    match rule.data_type {
        SchemaType::String => check_pattern(rule),
        SchemaType::Integer | SchemaType::Float => check_range(rule),
        _ => Ok(()),
    }
}

/// The message of a failure that reports a fault is the fault's message.
proof fn lemma_reported_message(e: ConfigGuardError, f: SchemaFault)
    requires
        reports(e, f),
    ensures
        message_of(e) == fault_message(f),
{
}

impl Schema {
    /// Checks a rule tree for consistency and reports the first fault: a
    /// constraint field on a type that may not carry it, bounds out of order, a
    /// pattern that does not compile, in the node itself or in the rules below it.
    #[verifier::loop_isolation(false)]
    pub fn validate_schema_rule(rule: &SchemaRule) -> (r: Result<(), ConfigGuardError>)
        ensures
            answers(r, first_fault(*rule)),
            r is Ok <==> well_formed(*rule),
        decreases *rule,
    {
        proof {
            lemma_fault_free_is_well_formed(*rule);
        }
        match rule.data_type {
            SchemaType::Object => {
                match &rule.keys {
                    Some(keys) => {
                        let mut i: usize = 0;
                        while i < keys.len()
                            invariant
                                i <= keys.entries().len(),
                                keys_fault(keys.entries(), i as nat) is None,
                            decreases keys.entries().len() - i,
                        {
                            proof {
                                assert(decreases_to!(keys.entries => keys.entries@));
                                assert(decreases_to!(keys.entries@ => keys.entries@[i as int]));
                            }
                            match Schema::validate_schema_rule(keys.rule_at(i)) {
                                Ok(()) => {},
                                Err(e) => {
                                    proof {
                                        lemma_reported_message(
                                            e,
                                            first_fault(keys.entries()[i as int].1)->Some_0,
                                        );
                                    }
                                    let mut text = "Invalid schema rule for key '".to_string();
                                    text.append(keys.name_at(i).as_str());
                                    text.append("': ");
                                    let inner = e.message();
                                    text.append(inner.as_str());
                                    assert(keys_fault(keys.entries(), (i + 1) as nat) == Some(
                                        in_key(
                                            keys.entries()[i as int].0@,
                                            first_fault(keys.entries()[i as int].1)->Some_0,
                                        ),
                                    ));
                                    proof {
                                        lemma_keys_fault_stays(
                                            keys.entries(),
                                            (i + 1) as nat,
                                            keys.entries().len(),
                                        );
                                    }
                                    return Err(ConfigGuardError::Schema(text));
                                },
                            }
                            i = i + 1;
                        }
                        check_own(rule)
                    },
                    None => check_own(rule),
                }
            },
            SchemaType::List => {
                match find_misplaced(rule) {
                    Some(c) => {
                        return Err(misplaced_error(rule, c));
                    },
                    None => {},
                }
                match &rule.items {
                    Some(inner) => {
                        match Schema::validate_schema_rule(inner) {
                            Ok(()) => check_own(rule),
                            Err(e) => {
                                proof {
                                    lemma_reported_message(e, first_fault(**inner)->Some_0);
                                }
                                let mut text = "Invalid schema rule for list items ".to_string();
                                let ctx = context(rule);
                                text.append(ctx.as_str());
                                text.append(": ");
                                let shown = e.message();
                                text.append(shown.as_str());
                                Err(ConfigGuardError::Schema(text))
                            },
                        }
                    },
                    None => check_own(rule),
                }
            },
            _ => check_own(rule),
        }
    }

    /// Makes a schema of a rule tree that is consistent, and reports the first
    /// fault of one that is not, as a schema failure whatever its kind.
    pub fn new(root: SchemaRule) -> (r: Result<Schema, ConfigGuardError>)
        ensures
            match first_fault(root) {
                None => r matches Ok(schema) && schema.root == root,
                Some(f) => r matches Err(ConfigGuardError::Schema(m)) && m@ == fault_message(f),
            },
            r is Ok <==> well_formed(root),
    {
        proof {
            lemma_fault_free_is_well_formed(root);
        }
        match Schema::validate_schema_rule(&root) {
            Ok(()) => Ok(Schema { root }),
            Err(e) => {
                proof {
                    lemma_reported_message(e, first_fault(root)->Some_0);
                }
                Err(ConfigGuardError::Schema(e.message()))
            },
        }
    }
}

/// A fault among the first entries stays the first fault when more entries are
/// looked at.
proof fn lemma_keys_fault_stays(entries: Seq<(String, SchemaRule)>, upto: nat, more: nat)
    requires
        upto <= more <= entries.len(),
        keys_fault(entries, upto) is Some,
    ensures
        keys_fault(entries, more) == keys_fault(entries, upto),
    decreases more,
{
    if more > upto {
        lemma_keys_fault_stays(entries, upto, (more - 1) as nat);
    }
}

/// Whether a rule and every rule below it tolerate unknown keys.
pub open spec fn tolerant(rule: SchemaRule) -> bool
    decreases rule, 0nat,
{
    &&& rule.allow_unknown_keys
    &&& rule.keys matches Some(keys) ==> fields_tolerant(keys.entries(), keys.entries().len())
    &&& rule.items matches Some(inner) ==> tolerant(*inner)
}

/// Whether the first `upto` field rules, and every rule below them, tolerate
/// unknown keys.
pub open spec fn fields_tolerant(entries: Seq<(String, SchemaRule)>, upto: nat) -> bool
    decreases entries, upto,
{
    if upto == 0 || upto > entries.len() {
        true
    } else {
        fields_tolerant(entries, (upto - 1) as nat) && tolerant(entries[upto - 1].1)
    }
}

/// Where the field rules tolerate unknown keys, each of them does.
pub proof fn lemma_field_is_tolerant(entries: Seq<(String, SchemaRule)>, upto: nat, at: int)
    requires
        0 <= at < upto <= entries.len(),
        fields_tolerant(entries, upto),
    ensures
        tolerant(entries[at].1),
    decreases upto,
{
    if at < upto - 1 {
        lemma_field_is_tolerant(entries, (upto - 1) as nat, at);
    }
}

/// The message for a schema source that the parser refuses: where the source
/// was read from, the parser's message, and, where that speaks of an invalid
/// type, a reminder of the types that a rule can ask for.
pub open spec fn refusal_text(path: Seq<char>, message: Seq<char>) -> Seq<char> {
    let plain = "Failed to parse schema YAML from "@ + path + ": "@ + message;
    if contains_text(message, "invalid type"@) {
        plain
            + ". Check that all types are valid (string, integer, float, boolean, object, list, any, null)."@
    } else {
        plain
    }
}

/// The failure for a schema source that the parser refuses.
pub fn parse_failure(path: &str, message: &str) -> (e: ConfigGuardError)
    ensures
        e matches ConfigGuardError::Schema(m) && m@ == refusal_text(path@, message@),
{
    let mut text = "Failed to parse schema YAML from ".to_string();
    text.append(path);
    text.append(": ");
    text.append(message);
    if text_contains(message, "invalid type") {
        text.append(
            ". Check that all types are valid (string, integer, float, boolean, object, list, any, null).",
        );
    }
    ConfigGuardError::Schema(text)
}

} // verus!
