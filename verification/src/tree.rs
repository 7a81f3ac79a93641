//! Reading the value tree that the parsers of `serde_yaml` and `serde_json`
//! hand out. The outside tree is looked at one node at a time; the tree of this
//! library is built from what is read, in verified code.

use crate::number::Number;
use crate::value::{is_key, well_keyed, ConfigValue};
use serde_yaml::Value as YamlTree;
use vstd::prelude::*;

verus! {

/// What kind of node an outside tree is at its root, with what a scalar holds.
#[derive(Debug)]
pub enum NodeShape {
    Null,
    Bool(bool),
    Number,
    String(String),
    Sequence,
    Mapping,
    /// A node under a tag: the tag as it is written, with its `!`.
    Tagged(String),
}

/// A shape with its texts as sequences of characters.
pub enum ShapeView {
    Null,
    Bool(bool),
    Number,
    String(Seq<char>),
    Sequence,
    Mapping,
    Tagged(Seq<char>),
}

impl View for NodeShape {
    type V = ShapeView;

    open spec fn view(&self) -> ShapeView {
        match *self {
            NodeShape::Null => ShapeView::Null,
            NodeShape::Bool(b) => ShapeView::Bool(b),
            NodeShape::Number => ShapeView::Number,
            NodeShape::String(s) => ShapeView::String(s@),
            NodeShape::Sequence => ShapeView::Sequence,
            NodeShape::Mapping => ShapeView::Mapping,
            NodeShape::Tagged(t) => ShapeView::Tagged(t@),
        }
    }
}

/// The variant of a `serde_yaml::Value`, with the content of a scalar.
pub uninterp spec fn tree_shape(v: YamlTree) -> ShapeView;

/// What `as_u64`, `as_i64` and `as_f64` of a `serde_yaml::Value` read of a
/// number: the float by its bit pattern and its decimal text.
pub uninterp spec fn tree_number(v: YamlTree) -> (
    Option<u64>,
    Option<i64>,
    Option<(u64, Seq<char>)>,
);

/// The text with which `serde_yaml` writes a `Value::Number`, as the `Display`
/// of `serde_yaml::Number` gives it; `None` for another node.
pub uninterp spec fn tree_written(v: YamlTree) -> Option<Seq<char>>;

/// The elements of a `serde_yaml::Value::Sequence`, in order.
pub uninterp spec fn tree_items(v: YamlTree) -> Seq<YamlTree>;

/// The entries of a `serde_yaml::Value::Mapping`, key and value, in order.
pub uninterp spec fn tree_entries(v: YamlTree) -> Seq<(YamlTree, YamlTree)>;

/// The value under the tag of a `serde_yaml::Value::Tagged`.
pub uninterp spec fn tree_inner(v: YamlTree) -> Option<YamlTree>;

/// What `serde_yaml::from_str` makes of a text: the tree of a document that is
/// well-formed YAML, else the message of the parser's error.
pub uninterp spec fn yaml_tree(text: Seq<char>) -> Result<YamlTree, Seq<char>>;

/// What `serde_json::from_str` makes of a text: the tree of a document that is
/// well-formed JSON, else the message of the parser's error.
pub uninterp spec fn json_tree(text: Seq<char>) -> Result<YamlTree, Seq<char>>;

/// Tells the variants of `serde_yaml::Value` apart and hands out what a scalar
/// holds. The contract names the answer.
#[verifier::external_body]
pub(crate) fn shape_of(v: &YamlTree) -> (r: NodeShape)
    ensures
        r@ == tree_shape(*v),
{
    match v {
        YamlTree::Null => NodeShape::Null,
        YamlTree::Bool(b) => NodeShape::Bool(*b),
        YamlTree::Number(_) => NodeShape::Number,
        YamlTree::String(s) => NodeShape::String(s.clone()),
        YamlTree::Sequence(_) => NodeShape::Sequence,
        YamlTree::Mapping(_) => NodeShape::Mapping,
        YamlTree::Tagged(t) => NodeShape::Tagged(t.tag.to_string()),
    }
}

/// Whether the readings of a number are those that the named answer gives.
pub open spec fn read_as(
    r: (Option<u64>, Option<i64>, Option<(u64, String)>),
    named: (Option<u64>, Option<i64>, Option<(u64, Seq<char>)>),
) -> bool {
    &&& r.0 == named.0
    &&& r.1 == named.1
    &&& match r.2 {
        Some(f) => named.2 == Some((f.0, f.1@)),
        None => named.2 is None,
    }
}

/// Reads a number with `Value::as_u64`, `Value::as_i64` and `Value::as_f64`;
/// the float is handed out by its bit pattern and its decimal text. The
/// contract names the answer.
#[verifier::external_body]
pub(crate) fn number_of(v: &YamlTree) -> (r: (Option<u64>, Option<i64>, Option<(u64, String)>))
    ensures
        read_as(r, tree_number(*v)),
{
    (v.as_u64(), v.as_i64(), v.as_f64().map(|f| (f.to_bits(), f.to_string())))
}

/// Hands out the text of a `Value::Number` as the `Display` of
/// `serde_yaml::Number` writes it; nothing for another node. The contract names
/// the answer.
#[verifier::external_body]
pub(crate) fn written_of(v: &YamlTree) -> (r: Option<String>)
    ensures
        crate::validation::text_of(r) == tree_written(*v),
{
    match v {
        YamlTree::Number(n) => Some(n.to_string()),
        _ => None,
    }
}

/// Hands out the elements of a `Value::Sequence`; nothing for another node.
#[verifier::external_body]
pub(crate) fn items_of<'a>(v: &'a YamlTree) -> (r: Vec<&'a YamlTree>)
    ensures
        r@.len() == tree_items(*v).len(),
        forall|i: int| 0 <= i < r@.len() ==> *(#[trigger] r@[i]) == tree_items(*v)[i],
{
    match v {
        YamlTree::Sequence(items) => items.iter().collect(),
        _ => Vec::new(),
    }
}

/// Whether no two entries stand under keys that are strings with the same text.
pub open spec fn distinct_tree_keys(entries: Seq<(YamlTree, YamlTree)>) -> bool {
    forall|i: int, j: int|
        0 <= i < j < entries.len() ==> !(tree_shape(
            (#[trigger] entries[i]).0,
        ) matches ShapeView::String(a) && tree_shape((#[trigger] entries[j]).0)
            == ShapeView::String(a))
}

/// The entries that were handed out, without the references.
pub open spec fn handed(r: Seq<(&YamlTree, &YamlTree)>) -> Seq<(YamlTree, YamlTree)> {
    r.map_values(|e: (&YamlTree, &YamlTree)| (*e.0, *e.1))
}

/// Hands out the entries of a `Value::Mapping`; nothing for another node. A
/// `serde_yaml::Mapping` holds every key once, so no two entries stand under
/// strings with the same text.
#[verifier::external_body]
pub(crate) fn entries_of<'a>(v: &'a YamlTree) -> (r: Vec<(&'a YamlTree, &'a YamlTree)>)
    ensures
        handed(r@) == tree_entries(*v),
        distinct_tree_keys(handed(r@)),
{
    match v {
        YamlTree::Mapping(entries) => entries.iter().collect(),
        _ => Vec::new(),
    }
}

/// Hands out the value under the tag of a `Value::Tagged`; nothing for
/// another node.
#[verifier::external_body]
pub(crate) fn inner_of<'a>(v: &'a YamlTree) -> (r: Option<&'a YamlTree>)
    ensures
        match r {
            Some(t) => tree_inner(*v) == Some(*t),
            None => tree_inner(*v) is None,
        },
{
    match v {
        YamlTree::Tagged(t) => Some(&t.value),
        _ => None,
    }
}

/// Whether a parser's answer is the one that the named result gives.
pub open spec fn parsed_as(
    r: Result<YamlTree, String>,
    named: Result<YamlTree, Seq<char>>,
) -> bool {
    match r {
        Ok(t) => named == Ok::<YamlTree, Seq<char>>(t),
        Err(m) => named == Err::<YamlTree, Seq<char>>(m@),
    }
}

/// Parses a YAML document with `serde_yaml::from_str`. The contract names the
/// outcome: the same text gives the same tree or the same message.
#[verifier::external_body]
pub(crate) fn parse_yaml(content: &str) -> (r: Result<YamlTree, String>)
    ensures
        parsed_as(r, yaml_tree(content@)),
{
    serde_yaml::from_str::<YamlTree>(content).map_err(|e| e.to_string())
}

/// Parses a JSON document with `serde_json::from_str`. The contract names the
/// outcome: the same text gives the same tree or the same message.
#[verifier::external_body]
pub(crate) fn parse_json(content: &str) -> (r: Result<YamlTree, String>)
    ensures
        parsed_as(r, json_tree(content@)),
{
    serde_json::from_str::<YamlTree>(content).map_err(|e| e.to_string())
}

/// The number that the readings of a parser stand for: an unsigned integer
/// where there is one, else a signed integer, else a float; zero without any.
/// A float is written as the parser writes it, or as it is shown where the
/// parser writes nothing.
pub open spec fn reads_number(
    n: Number,
    readings: (Option<u64>, Option<i64>, Option<(u64, Seq<char>)>),
    as_written: Option<Seq<char>>,
) -> bool {
    match readings {
        (Some(u), _, _) => n == Number::PosInt(u),
        (None, Some(i), _) => n == Number::NegInt(i),
        (None, None, Some(f)) => n matches Number::Float { bits, text, written } && bits == f.0
            && text@ == f.1 && written@ == (match as_written {
            Some(w) => w,
            None => f.1,
        }),
        (None, None, None) => n == Number::PosInt(0),
    }
}

/// Whether a value of this library is the picture of an outside tree: the same
/// shape at every node, the same scalars, the same children in the same order.
pub open spec fn depicts(v: YamlTree, c: ConfigValue) -> bool
    decreases c,
{
    match c {
        ConfigValue::Null => tree_shape(v) == ShapeView::Null,
        ConfigValue::Bool(b) => tree_shape(v) == ShapeView::Bool(b),
        ConfigValue::Number(n) => tree_shape(v) == ShapeView::Number && reads_number(
            n,
            tree_number(v),
            tree_written(v),
        ),
        ConfigValue::String(s) => tree_shape(v) == ShapeView::String(s@),
        ConfigValue::Sequence(items) => tree_shape(v) == ShapeView::Sequence && tree_items(v).len()
            == items@.len() && forall|i: int|
            0 <= i < items@.len() ==> depicts(tree_items(v)[i], #[trigger] items@[i]),
        ConfigValue::Mapping(entries) => tree_shape(v) == ShapeView::Mapping && tree_entries(
            v,
        ).len() == entries@.len() && forall|i: int|
            0 <= i < entries@.len() ==> depicts(tree_entries(v)[i].0, (#[trigger] entries@[i]).0)
                && depicts(tree_entries(v)[i].1, entries@[i].1),
        ConfigValue::Tagged(tag, inner) => tree_shape(v) == ShapeView::Tagged(tag@) && (tree_inner(
            v,
        ) matches Some(t) && depicts(t, *inner)),
    }
}

/// Whether an outside tree is no deeper than a number of levels, and every
/// tagged node in it holds a value.
pub open spec fn fits(v: YamlTree, levels: nat) -> bool
    decreases levels,
{
    levels > 0 && match tree_shape(v) {
        ShapeView::Sequence => forall|i: int|
            0 <= i < tree_items(v).len() ==> fits(#[trigger] tree_items(v)[i], (levels - 1) as nat),
        ShapeView::Mapping => forall|i: int|
            0 <= i < tree_entries(v).len() ==> fits(
                (#[trigger] tree_entries(v)[i]).0,
                (levels - 1) as nat,
            ) && fits(tree_entries(v)[i].1, (levels - 1) as nat),
        ShapeView::Tagged(_) => tree_inner(v) matches Some(t) && fits(t, (levels - 1) as nat),
        _ => true,
    }
}

/// Builds the value of this library for an outside tree that is no deeper than
/// `levels`; `None` for a deeper one.
#[verifier::loop_isolation(false)]
pub fn build(v: &YamlTree, levels: usize) -> (r: Option<ConfigValue>)
    ensures
        match r {
            Some(c) => fits(*v, levels as nat) && depicts(*v, c) && well_keyed(c),
            None => !fits(*v, levels as nat),
        },
    decreases levels,
{
    if levels == 0 {
        return None;
    }
    match shape_of(v) {
        NodeShape::Null => Some(ConfigValue::Null),
        NodeShape::Bool(b) => Some(ConfigValue::Bool(b)),
        NodeShape::Number => {
            let (unsigned, signed, float) = number_of(v);
            let float = match float {
                Some(f) => {
                    let written = match written_of(v) {
                        Some(w) => w,
                        None => f.1.clone(),
                    };
                    Some((f.0, f.1, written))
                },
                None => None,
            };
            Some(ConfigValue::Number(Number::classify(unsigned, signed, float)))
        },
        NodeShape::String(s) => Some(ConfigValue::String(s)),
        NodeShape::Sequence => {
            let parts = items_of(v);
            let mut items: Vec<ConfigValue> = Vec::new();
            let mut i: usize = 0;
            while i < parts.len()
                invariant
                    i <= parts.len(),
                    items@.len() == i,
                    forall|j: int|
                        0 <= j < i ==> fits(#[trigger] tree_items(*v)[j], (levels - 1) as nat),
                    forall|j: int|
                        0 <= j < i ==> depicts(tree_items(*v)[j], #[trigger] items@[j]),
                    forall|j: int| 0 <= j < i ==> well_keyed(#[trigger] items@[j]),
                decreases parts.len() - i,
            {
                assert(*parts@[i as int] == tree_items(*v)[i as int]);
                let ghost before = items@;
                match build(parts[i], levels - 1) {
                    Some(c) => items.push(c),
                    None => {
                        return None;
                    },
                }
                assert forall|j: int| 0 <= j < i + 1 implies depicts(
                    tree_items(*v)[j],
                    #[trigger] items@[j],
                ) && well_keyed(items@[j]) by {
                    if j < i {
                        assert(items@[j] == before[j]);
                    }
                }
                i = i + 1;
            }
            let r = ConfigValue::Sequence(items);
            assert(depicts(*v, r));
            assert(fits(*v, levels as nat));
            Some(r)
        },
        NodeShape::Mapping => {
            let parts = entries_of(v);
            let mut entries: Vec<(ConfigValue, ConfigValue)> = Vec::new();
            let mut i: usize = 0;
            while i < parts.len()
                invariant
                    i <= parts.len(),
                    entries@.len() == i,
                    forall|j: int|
                        0 <= j < i ==> fits(
                            (#[trigger] tree_entries(*v)[j]).0,
                            (levels - 1) as nat,
                        ) && fits(tree_entries(*v)[j].1, (levels - 1) as nat),
                    forall|j: int|
                        0 <= j < i ==> depicts(tree_entries(*v)[j].0, (#[trigger] entries@[j]).0)
                            && depicts(tree_entries(*v)[j].1, entries@[j].1),
                    forall|j: int|
                        0 <= j < i ==> well_keyed((#[trigger] entries@[j]).0) && well_keyed(
                            entries@[j].1,
                        ),
                    distinct_tree_keys(tree_entries(*v)),
                    handed(parts@) == tree_entries(*v),
                decreases parts.len() - i,
            {
                assert(handed(parts@)[i as int] == (*parts@[i as int].0, *parts@[i as int].1));
                let ghost before = entries@;
                let key = match build(parts[i].0, levels - 1) {
                    Some(c) => c,
                    None => {
                        return None;
                    },
                };
                let value = match build(parts[i].1, levels - 1) {
                    Some(c) => c,
                    None => {
                        return None;
                    },
                };
                entries.push((key, value));
                assert forall|j: int| 0 <= j < i + 1 implies depicts(
                    tree_entries(*v)[j].0,
                    (#[trigger] entries@[j]).0,
                ) && depicts(tree_entries(*v)[j].1, entries@[j].1) && well_keyed(entries@[j].0)
                    && well_keyed(entries@[j].1) by {
                    if j < i {
                        assert(entries@[j] == before[j]);
                    }
                }
                i = i + 1;
            }
            assert forall|a: int, b: int| 0 <= a < b < entries@.len() implies !((
            #[trigger] entries@[a]).0 matches ConfigValue::String(s) && is_key(
                (#[trigger] entries@[b]).0,
                s@,
            )) by {
                let ta = tree_entries(*v)[a];
                let tb = tree_entries(*v)[b];
                assert(depicts(ta.0, entries@[a].0));
                assert(depicts(tb.0, entries@[b].0));
            }
            let r = ConfigValue::Mapping(entries);
            assert(depicts(*v, r));
            assert(fits(*v, levels as nat));
            Some(r)
        },
        NodeShape::Tagged(tag) => {
            match inner_of(v) {
                Some(t) => match build(t, levels - 1) {
                    Some(c) => Some(ConfigValue::Tagged(tag, Box::new(c))),
                    None => None,
                },
                None => None,
            }
        },
    }
}

} // verus!
