//! YAML values, as a gateway config gives them to a plugin.

use crate::json::JsonView;
use crate::strmap::StrMap;
use crate::tree;
use vstd::prelude::*;

verus! {

/// The YAML tree of `yaml_serde`.
#[verifier::external_type_specification]
#[verifier::external_body]
pub struct ExYaml(yaml_serde::Value);

/// What a YAML value says. A number that is not whole is told by its text, a mapping
/// by its entries in order.
pub enum YamlView {
    Null,
    Bool(bool),
    Int(int),
    Real(Seq<char>),
    Text(Seq<char>),
    Sequence(Seq<YamlView>),
    Mapping(Seq<(YamlView, YamlView)>),
    Tagged(Seq<char>, Box<YamlView>),
}

/// What a `yaml_serde` tree says.
pub uninterp spec fn yaml_view(v: yaml_serde::Value) -> YamlView;

/// One level of a `yaml_serde` tree.
pub enum YamlLevel<'a> {
    Null,
    Bool(bool),
    Pos(u64),
    Neg(i64),
    Real(String),
    Text(&'a str),
    Sequence(Vec<&'a yaml_serde::Value>),
    Mapping(Vec<(&'a yaml_serde::Value, &'a yaml_serde::Value)>),
    Tagged(String, &'a yaml_serde::Value),
}

/// What one level says.
pub open spec fn yaml_level_view(l: YamlLevel) -> YamlView {
    match l {
        YamlLevel::Null => YamlView::Null,
        YamlLevel::Bool(b) => YamlView::Bool(b),
        YamlLevel::Pos(n) => YamlView::Int(n as int),
        YamlLevel::Neg(n) => YamlView::Int(n as int),
        YamlLevel::Real(s) => YamlView::Real(s@),
        YamlLevel::Text(s) => YamlView::Text(s@),
        YamlLevel::Sequence(v) => YamlView::Sequence(
            v@.map_values(|x: &yaml_serde::Value| yaml_view(*x)),
        ),
        YamlLevel::Mapping(v) => YamlView::Mapping(
            v@.map_values(
                |x: (&yaml_serde::Value, &yaml_serde::Value)| (yaml_view(*x.0), yaml_view(*x.1)),
            ),
        ),
        YamlLevel::Tagged(tag, v) => YamlView::Tagged(tag@, Box::new(yaml_view(*v))),
    }
}

/// Takes one level of a `yaml_serde::Value` apart, variant by variant, with
/// `Number::as_u64` and `Number::as_i64` for a whole number and the `Display` of
/// `Number` for any other.
#[verifier::external_body]
pub(crate) fn open_yaml<'a>(v: &'a yaml_serde::Value) -> (r: YamlLevel<'a>)
    ensures
        yaml_level_view(r) == yaml_view(*v),
{
    match v {
        yaml_serde::Value::Null => YamlLevel::Null,
        yaml_serde::Value::Bool(b) => YamlLevel::Bool(*b),
        yaml_serde::Value::Number(n) => match (n.as_u64(), n.as_i64()) {
            (Some(n), _) => YamlLevel::Pos(n),
            (_, Some(n)) => YamlLevel::Neg(n),
            _ => YamlLevel::Real(n.to_string()),
        },
        yaml_serde::Value::String(s) => YamlLevel::Text(s),
        yaml_serde::Value::Sequence(v) => YamlLevel::Sequence(v.iter().collect()),
        yaml_serde::Value::Mapping(m) => YamlLevel::Mapping(m.iter().collect()),
        yaml_serde::Value::Tagged(t) => YamlLevel::Tagged(t.tag.to_string(), &t.value),
    }
}

/// `Clone` of `yaml_serde::Value`: the copy says the same.
pub assume_specification[ <yaml_serde::Value as Clone>::clone ](v: &yaml_serde::Value) -> (r:
    yaml_serde::Value)
    ensures
        yaml_view(r) == yaml_view(*v),
;

/// The JSON value that `serde_json::to_value` makes of a YAML value, or the text of
/// its error.
pub uninterp spec fn yaml_json(v: YamlView) -> Result<JsonView, Seq<char>>;

/// `serde_json::to_value` of a `yaml_serde::Value`. The result is a function of what
/// the value says.
#[verifier::external_body]
pub(crate) fn yaml_to_json(v: &yaml_serde::Value) -> (r: Result<serde_json::Value, String>)
    ensures
        match r {
            Ok(j) => yaml_json(yaml_view(*v)) == Ok::<JsonView, Seq<char>>(tree::value_view(j)),
            Err(e) => yaml_json(yaml_view(*v)) == Err::<JsonView, Seq<char>>(e@),
        },
{
    serde_json::to_value(v).map_err(|error| error.to_string())
}

/// What the values under the keys of a block say.
pub open spec fn block_view(m: StrMap<yaml_serde::Value>) -> Map<Seq<char>, YamlView> {
    m@.map_values(|v: yaml_serde::Value| yaml_view(v))
}

/// A value without the tags on it.
pub open spec fn untagged(v: YamlView) -> YamlView
    decreases v,
{
    match v {
        YamlView::Tagged(_, inner) => untagged(*inner),
        _ => v,
    }
}

/// The text a value is, where it is one, whatever tags it carries.
pub open spec fn as_str_spec(v: YamlView) -> Option<Seq<char>> {
    match untagged(v) {
        YamlView::Text(s) => Some(s),
        _ => None,
    }
}

/// The number a value is, where it is one that fits, whatever tags it carries.
pub open spec fn as_u64_spec(v: YamlView) -> Option<u64> {
    match untagged(v) {
        YamlView::Int(n) => if 0 <= n <= u64::MAX {
            Some(n as u64)
        } else {
            None
        },
        _ => None,
    }
}

/// The text a value is, where it is one.
pub fn as_str<'a>(v: &'a yaml_serde::Value) -> (r: Option<&'a str>)
    ensures
        match r {
            Some(s) => as_str_spec(yaml_view(*v)) == Some(s@),
            None => as_str_spec(yaml_view(*v)) is None,
        },
    decreases yaml_view(*v),
{
    match open_yaml(v) {
        YamlLevel::Text(s) => Some(s),
        YamlLevel::Tagged(_, inner) => {
            proof {
                assert(decreases_to!(yaml_view(*v) => yaml_view(*v)->Tagged_1));
            }
            as_str(inner)
        },
        _ => None,
    }
}

/// The number a value is, where it is one that fits.
pub fn as_u64(v: &yaml_serde::Value) -> (r: Option<u64>)
    ensures
        r == as_u64_spec(yaml_view(*v)),
    decreases yaml_view(*v),
{
    match open_yaml(v) {
        YamlLevel::Pos(n) => Some(n),
        YamlLevel::Neg(n) => if n >= 0 {
            Some(n as u64)
        } else {
            None
        },
        YamlLevel::Tagged(_, inner) => {
            proof {
                assert(decreases_to!(yaml_view(*v) => yaml_view(*v)->Tagged_1));
            }
            as_u64(inner)
        },
        _ => None,
    }
}

} // verus!
