//! The value tree of a parsed document, whatever format it was written in.

use crate::number::{integer_bits, integer_to_bits, Number};
use crate::text::{
    debug_quoted, decimal, decimal_text, quoted_text, signed_decimal, signed_decimal_text,
};
use vstd::prelude::*;

verus! {

/// A node of a parsed document.
#[derive(Debug)]
pub enum ConfigValue {
    Null,
    Bool(bool),
    Number(Number),
    String(String),
    /// The elements of a list, in document order.
    Sequence(Vec<ConfigValue>),
    /// The entries of an object, key and value, in document order.
    Mapping(Vec<(ConfigValue, ConfigValue)>),
    /// A value under a YAML tag: the tag as it is written, with its `!`, and
    /// the value. No rule but one of type `any` takes a tagged value.
    Tagged(String, Box<ConfigValue>),
}

impl Number {
    /// Whether the number was written as an integer.
    pub open spec fn is_integer(self) -> bool {
        !(self is Float)
    }

    /// The binary64 pattern by which the number is compared: that of a float as
    /// it stands, that of an integer as conversion to binary64 rounds it.
    pub open spec fn pattern(self) -> u64 {
        match self {
            Number::PosInt(n) => integer_bits(n as nat, false),
            Number::NegInt(i) => if i < 0 {
                integer_bits((-i) as nat, true)
            } else {
                integer_bits(i as nat, false)
            },
            Number::Float { bits, .. } => bits,
        }
    }

    /// The text that diagnostics show for the number: the decimal digits of an
    /// integer, the text that a float carries.
    pub open spec fn shown(self) -> Seq<char> {
        match self {
            Number::PosInt(n) => decimal(n as nat),
            Number::NegInt(i) => signed_decimal(i as int),
            Number::Float { text, .. } => text@,
        }
    }

    /// The text with which a listing of schema values shows the number: the
    /// decimal digits of an integer, the text with which YAML writes a float.
    pub open spec fn listed(self) -> Seq<char> {
        match self {
            Number::PosInt(n) => decimal(n as nat),
            Number::NegInt(i) => signed_decimal(i as int),
            Number::Float { written, .. } => written@,
        }
    }

    /// The number that a parser found, from what the parser can say of it: an
    /// unsigned integer where it is one, else a signed integer, else a float
    /// by its bit pattern and its two texts. Without any of these it is zero.
    pub fn classify(
        unsigned: Option<u64>,
        signed: Option<i64>,
        float: Option<(u64, String, String)>,
    ) -> (r: Number)
        ensures
            r == (match (unsigned, signed, float) {
                (Some(u), _, _) => Number::PosInt(u),
                (None, Some(i), _) => Number::NegInt(i),
                (None, None, Some(f)) => Number::Float { bits: f.0, text: f.1, written: f.2 },
                (None, None, None) => Number::PosInt(0),
            }),
    {
        match unsigned {
            Some(u) => Number::PosInt(u),
            None => match signed {
                Some(i) => Number::NegInt(i),
                None => match float {
                    Some(f) => Number::Float { bits: f.0, text: f.1, written: f.2 },
                    None => Number::PosInt(0),
                },
            },
        }
    }

    /// Whether the number was written as an integer.
    pub fn is_int(&self) -> (r: bool)
        ensures
            r == self.is_integer(),
    {
        match self {
            Number::Float { .. } => false,
            _ => true,
        }
    }

    /// The binary64 pattern by which the number is compared.
    pub fn to_bits(&self) -> (r: u64)
        ensures
            r == self.pattern(),
    {
        match self {
            Number::PosInt(n) => integer_to_bits(*n, false),
            Number::NegInt(i) => {
                if *i < 0 {
                    let magnitude: u64 = if *i == i64::MIN {
                        9223372036854775808u64
                    } else {
                        (-*i) as u64
                    };
                    integer_to_bits(magnitude, true)
                } else {
                    integer_to_bits(*i as u64, false)
                }
            },
            Number::Float { bits, .. } => *bits,
        }
    }

    /// The text that diagnostics show for the number.
    pub fn to_text(&self) -> (r: String)
        ensures
            r@ == self.shown(),
    {
        match self {
            Number::PosInt(n) => decimal_text(*n),
            Number::NegInt(i) => signed_decimal_text(*i),
            Number::Float { text, .. } => text.clone(),
        }
    }

    /// The text with which a listing of schema values shows the number.
    pub fn to_listed(&self) -> (r: String)
        ensures
            r@ == self.listed(),
    {
        match self {
            Number::PosInt(n) => decimal_text(*n),
            Number::NegInt(i) => signed_decimal_text(*i),
            Number::Float { written, .. } => written.clone(),
        }
    }
}

/// The name under which diagnostics report the runtime type of a value.
pub open spec fn kind_name(value: ConfigValue) -> Seq<char> {
    match value {
        ConfigValue::String(_) => "string"@,
        ConfigValue::Number(n) => if n.is_integer() {
            "integer"@
        } else {
            "float"@
        },
        ConfigValue::Bool(_) => "boolean"@,
        ConfigValue::Mapping(_) => "object"@,
        ConfigValue::Sequence(_) => "list"@,
        ConfigValue::Null => "null"@,
        ConfigValue::Tagged(_, _) => "unknown"@,
    }
}

/// The name of a value's runtime type.
pub fn value_type_name(value: &ConfigValue) -> (r: String)
    ensures
        r@ == kind_name(*value),
{
    match value {
        ConfigValue::String(_) => "string".to_string(),
        ConfigValue::Number(n) => {
            if n.is_int() {
                "integer".to_string()
            } else {
                "float".to_string()
            }
        },
        ConfigValue::Bool(_) => "boolean".to_string(),
        ConfigValue::Mapping(_) => "object".to_string(),
        ConfigValue::Sequence(_) => "list".to_string(),
        ConfigValue::Null => "null".to_string(),
        ConfigValue::Tagged(_, _) => "unknown".to_string(),
    }
}

/// Whether a value is the string key `name`.
pub open spec fn is_key(key: ConfigValue, name: Seq<char>) -> bool {
    key matches ConfigValue::String(s) && s@ == name
}

/// Whether no two entries stand under the same string key.
pub open spec fn distinct_keys(entries: Seq<(ConfigValue, ConfigValue)>) -> bool {
    forall|i: int, j: int|
        0 <= i < j < entries.len() ==> !((#[trigger] entries[i]).0 matches ConfigValue::String(a)
            && is_key((#[trigger] entries[j]).0, a@))
}

/// Whether no object anywhere in a value holds a string key twice. Values that
/// a parser hands out are so; the walk does not rely on it.
pub open spec fn well_keyed(c: ConfigValue) -> bool
    decreases c,
{
    match c {
        ConfigValue::Sequence(items) => forall|i: int|
            0 <= i < items@.len() ==> well_keyed(#[trigger] items@[i]),
        ConfigValue::Mapping(entries) => distinct_keys(entries@) && forall|i: int|
            0 <= i < entries@.len() ==> well_keyed((#[trigger] entries@[i]).0) && well_keyed(
                entries@[i].1,
            ),
        ConfigValue::Tagged(_, inner) => well_keyed(*inner),
        _ => true,
    }
}

/// The position of the first entry under the string key `name`, or the number of
/// entries where there is none.
pub open spec fn key_position(entries: Seq<(ConfigValue, ConfigValue)>, name: Seq<char>) -> int
    decreases entries.len(),
{
    if entries.len() == 0 {
        0
    } else if is_key(entries[0].0, name) {
        0
    } else {
        1 + key_position(entries.subrange(1, entries.len() as int), name)
    }
}

/// Whether some entry stands under the string key `name`.
pub open spec fn has_key(entries: Seq<(ConfigValue, ConfigValue)>, name: Seq<char>) -> bool {
    key_position(entries, name) < entries.len()
}

/// The position found is the first one under the key: no entry before it
/// stands under the key, and the entry at it does where it lies within the entries.
pub proof fn lemma_key_position(entries: Seq<(ConfigValue, ConfigValue)>, name: Seq<char>)
    ensures
        0 <= key_position(entries, name) <= entries.len(),
        forall|i: int| 0 <= i < key_position(entries, name) ==> !is_key(entries[i].0, name),
        key_position(entries, name) < entries.len() ==> is_key(
            entries[key_position(entries, name)].0,
            name,
        ),
    decreases entries.len(),
{
    if entries.len() > 0 && !is_key(entries[0].0, name) {
        let rest = entries.subrange(1, entries.len() as int);
        lemma_key_position(rest, name);
        assert forall|i: int| 0 <= i < key_position(entries, name) implies !is_key(
            entries[i].0,
            name,
        ) by {
            if i > 0 {
                assert(entries[i] == rest[i - 1]);
            }
        }
        if key_position(entries, name) < entries.len() {
            assert(entries[key_position(entries, name)] == rest[key_position(rest, name)]);
        }
    }
}

/// Finds the first entry of an object under a string key.
pub fn find_key(entries: &Vec<(ConfigValue, ConfigValue)>, name: &str) -> (r: Option<usize>)
    ensures
        match r {
            Some(i) => has_key(entries@, name@) && i == key_position(entries@, name@),
            None => !has_key(entries@, name@),
        },
{
    proof {
        lemma_key_position(entries@, name@);
    }
    let wanted = name.to_string();
    let mut i: usize = 0;
    while i < entries.len()
        invariant
            i <= entries.len(),
            wanted@ == name@,
            forall|j: int| 0 <= j < i ==> !is_key(entries@[j].0, name@),
            0 <= key_position(entries@, name@) <= entries.len(),
            forall|j: int|
                0 <= j < key_position(entries@, name@) ==> !is_key(entries@[j].0, name@),
            key_position(entries@, name@) < entries.len() ==> is_key(
                entries@[key_position(entries@, name@)].0,
                name@,
            ),
        decreases entries.len() - i,
    {
        let found = match &entries[i].0 {
            ConfigValue::String(s) => *s == wanted,
            _ => false,
        };
        if found {
            return Some(i);
        }
        i = i + 1;
    }
    None
}

impl ConfigValue {
    /// The value under a string key of an object; `None` for a missing key and
    /// for a value that is no object.
    pub fn get(&self, name: &str) -> (r: Option<&ConfigValue>)
        ensures
            match *self {
                ConfigValue::Mapping(entries) => if has_key(entries@, name@) {
                    r == Some(&entries@[key_position(entries@, name@)].1)
                } else {
                    r is None
                },
                _ => r is None,
            },
    {
        match self {
            ConfigValue::Mapping(entries) => {
                match find_key(entries, name) {
                    Some(i) => Some(&entries[i].1),
                    None => None,
                }
            },
            _ => None,
        }
    }

    /// Whether the value is an object with an entry under the string key.
    pub fn contains_key(&self, name: &str) -> (r: bool)
        ensures
            r == (*self matches ConfigValue::Mapping(entries) && has_key(entries@, name@)),
    {
        match self {
            ConfigValue::Mapping(entries) => find_key(entries, name).is_some(),
            _ => false,
        }
    }
}

/// The word for a boolean.
pub open spec fn bool_text(b: bool) -> Seq<char> {
    if b {
        "true"@
    } else {
        "false"@
    }
}

/// The developer-facing rendering of a value, used where a diagnostic has to show
/// a value of any shape: the variant's name around the content, strings quoted.
pub open spec fn debug_text(v: ConfigValue) -> Seq<char>
    decreases v, 0nat,
{
    match v {
        ConfigValue::Null => "Null"@,
        ConfigValue::Bool(b) => "Bool("@ + bool_text(b) + ")"@,
        ConfigValue::Number(n) => "Number("@ + n.listed() + ")"@,
        ConfigValue::String(s) => "String("@ + debug_quoted(s@) + ")"@,
        ConfigValue::Sequence(items) => "Sequence ["@ + items_text(items@, items@.len()) + "]"@,
        ConfigValue::Mapping(entries) => "Mapping {"@ + entries_text(entries@, entries@.len())
            + "}"@,
        ConfigValue::Tagged(tag, inner) => "TaggedValue { tag: "@ + tag@ + ", value: "@
            + debug_text(*inner) + " }"@,
    }
}

/// The renderings of the first `upto` elements, separated by a comma and a space.
pub open spec fn items_text(items: Seq<ConfigValue>, upto: nat) -> Seq<char>
    decreases items, upto,
{
    if upto == 0 || upto > items.len() {
        Seq::empty()
    } else if upto == 1 {
        debug_text(items[0])
    } else {
        items_text(items, (upto - 1) as nat) + ", "@ + debug_text(items[upto - 1])
    }
}

/// The rendering of an object's key: a scalar key stands bare.
pub open spec fn key_text(k: ConfigValue) -> Seq<char>
    decreases k, 1nat,
{
    match k {
        ConfigValue::Bool(b) => bool_text(b),
        ConfigValue::Number(n) => n.listed(),
        ConfigValue::String(s) => debug_quoted(s@),
        _ => debug_text(k),
    }
}

/// The rendering of one entry: key, colon, value.
pub open spec fn entry_text(entry: (ConfigValue, ConfigValue)) -> Seq<char>
    decreases entry, 2nat,
{
    key_text(entry.0) + ": "@ + debug_text(entry.1)
}

/// The renderings of the first `upto` entries, separated by a comma and a space.
pub open spec fn entries_text(entries: Seq<(ConfigValue, ConfigValue)>, upto: nat) -> Seq<char>
    decreases entries, upto,
{
    if upto == 0 || upto > entries.len() {
        Seq::empty()
    } else if upto == 1 {
        entry_text(entries[0])
    } else {
        entries_text(entries, (upto - 1) as nat) + ", "@ + entry_text(entries[upto - 1])
    }
}

/// The word for a boolean.
fn bool_string(b: bool) -> (r: String)
    ensures
        r@ == bool_text(b),
{
    if b {
        "true".to_string()
    } else {
        "false".to_string()
    }
}

/// Renders a value for a diagnostic.
#[verifier::loop_isolation(false)]
pub fn debug_string(v: &ConfigValue) -> (r: String)
    ensures
        r@ == debug_text(*v),
    decreases *v,
{
    match v {
        ConfigValue::Null => "Null".to_string(),
        ConfigValue::Bool(b) => {
            let mut r = "Bool(".to_string();
            let inner = bool_string(*b);
            r.append(inner.as_str());
            r.append(")");
            r
        },
        ConfigValue::Number(n) => {
            let mut r = "Number(".to_string();
            let inner = n.to_listed();
            r.append(inner.as_str());
            r.append(")");
            r
        },
        ConfigValue::String(s) => {
            let mut r = "String(".to_string();
            let inner = quoted_text(s.as_str());
            r.append(inner.as_str());
            r.append(")");
            r
        },
        ConfigValue::Sequence(items) => {
            let mut r = "Sequence [".to_string();
            let mut i: usize = 0;
            while i < items.len()
                invariant
                    i <= items.len(),
                    *v == ConfigValue::Sequence(*items),
                    r@ == "Sequence ["@ + items_text(items@, i as nat),
                decreases items.len() - i,
            {
                if i > 0 {
                    r.append(", ");
                }
                proof {
                    assert(decreases_to!(*items => items@));
                    assert(decreases_to!(items@ => items@[i as int]));
                }
                let inner = debug_string(&items[i]);
                r.append(inner.as_str());
                i = i + 1;
                assert(r@ =~= "Sequence ["@ + items_text(items@, i as nat));
            }
            r.append("]");
            r
        },
        ConfigValue::Mapping(entries) => {
            let mut r = "Mapping {".to_string();
            let mut i: usize = 0;
            while i < entries.len()
                invariant
                    i <= entries.len(),
                    *v == ConfigValue::Mapping(*entries),
                    r@ == "Mapping {"@ + entries_text(entries@, i as nat),
                decreases entries.len() - i,
            {
                if i > 0 {
                    r.append(", ");
                }
                proof {
                    assert(decreases_to!(*entries => entries@));
                    assert(decreases_to!(entries@ => entries@[i as int]));
                }
                let key = match &entries[i].0 {
                    ConfigValue::Bool(b) => bool_string(*b),
                    ConfigValue::Number(n) => n.to_listed(),
                    ConfigValue::String(s) => quoted_text(s.as_str()),
                    other => debug_string(other),
                };
                assert(key@ == key_text(entries@[i as int].0));
                r.append(key.as_str());
                r.append(": ");
                let inner = debug_string(&entries[i].1);
                r.append(inner.as_str());
                assert(entry_text(entries@[i as int]) == key@ + ": "@ + inner@);
                i = i + 1;
                assert(r@ =~= "Mapping {"@ + entries_text(entries@, i as nat));
            }
            r.append("}");
            r
        },
        ConfigValue::Tagged(tag, inner) => {
            let mut r = "TaggedValue { tag: ".to_string();
            r.append(tag.as_str());
            r.append(", value: ");
            let shown = debug_string(inner);
            r.append(shown.as_str());
            r.append(" }");
            r
        },
    }
}

/// The renderings of the first `upto` values, separated by a comma and a space.
pub fn debug_list(values: &Vec<ConfigValue>) -> (r: String)
    ensures
        r@ == items_text(values@, values@.len()),
{
    let mut r = String::new();
    let mut i: usize = 0;
    while i < values.len()
        invariant
            i <= values.len(),
            r@ == items_text(values@, i as nat),
        decreases values.len() - i,
    {
        if i > 0 {
            r.append(", ");
        }
        let inner = debug_string(&values[i]);
        r.append(inner.as_str());
        i = i + 1;
        assert(r@ =~= items_text(values@, i as nat));
    }
    r
}

} // verus!
