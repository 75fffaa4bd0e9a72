//! The JSON values of serde_json, seen through a mathematical model.
//!
//! A `serde_json::Value` stays opaque to the verifier; `json_view` names the
//! tree it holds. The wrappers below are the only places where the library
//! touches serde_json, and each states its effect on that model.
use vstd::prelude::*;

verus! {

/// The mathematical model of a JSON value. Object entries keep their order.
pub enum JsonModel {
    Null,
    Bool(bool),
    /// A number, as the decimal text that serde_json prints for it.
    Number(Seq<char>),
    Str(Seq<char>),
    Array(Seq<JsonModel>),
    Object(Seq<(Seq<char>, JsonModel)>),
}

#[verifier::external_type_specification]
#[verifier::external_body]
pub struct ExValue(serde_json::Value);

/// The tree that a serde_json value holds.
pub uninterp spec fn json_view(v: serde_json::Value) -> JsonModel;

/// What serde_json reads from a text: `None` where the text is not JSON.
pub uninterp spec fn json_parse(s: Seq<char>) -> Option<JsonModel>;

/// The compact JSON text that serde_json writes for a value.
pub uninterp spec fn compact_text(m: JsonModel) -> Seq<char>;

/// The indented JSON text that serde_json writes for a value.
pub uninterp spec fn pretty_text(m: JsonModel) -> Seq<char>;

/// The text of the finite double read from `s`; `None` where `s` does not
/// read as a double or reads as an infinity or a NaN.
pub uninterp spec fn float_number(s: Seq<char>) -> Option<Seq<char>>;

/// The character of a decimal digit.
pub open spec fn digit_char(d: int) -> char {
    if d == 0 { '0' }
    else if d == 1 { '1' }
    else if d == 2 { '2' }
    else if d == 3 { '3' }
    else if d == 4 { '4' }
    else if d == 5 { '5' }
    else if d == 6 { '6' }
    else if d == 7 { '7' }
    else if d == 8 { '8' }
    else { '9' }
}

/// The decimal digits of a natural number, without leading zeros.
pub open spec fn nat_text(n: nat) -> Seq<char>
    decreases n,
{
    if n < 10 {
        seq![digit_char(n as int)]
    } else {
        nat_text(n / 10).push(digit_char((n % 10) as int))
    }
}

/// The decimal text of an integer, with a leading `-` when negative.
pub open spec fn int_text(i: int) -> Seq<char> {
    if i < 0 {
        seq!['-'] + nat_text((-i) as nat)
    } else {
        nat_text(i as nat)
    }
}

/// Associates `k` with `v`: an entry already under `k` keeps its place and
/// takes the new value, otherwise the entry goes at the end.
pub open spec fn assoc_put(
    es: Seq<(Seq<char>, JsonModel)>,
    k: Seq<char>,
    v: JsonModel,
) -> Seq<(Seq<char>, JsonModel)> {
    if exists|i: int| 0 <= i < es.len() && es[i].0 == k {
        let i = choose|i: int| 0 <= i < es.len() && es[i].0 == k;
        es.update(i, (k, v))
    } else {
        es.push((k, v))
    }
}

/// The entries of the map built by putting each pair in turn.
pub open spec fn assoc_from(ps: Seq<(Seq<char>, JsonModel)>) -> Seq<(Seq<char>, JsonModel)>
    decreases ps.len(),
{
    if ps.len() == 0 {
        Seq::empty()
    } else {
        assoc_put(assoc_from(ps.drop_last()), ps.last().0, ps.last().1)
    }
}

/// One level of a JSON value: its kind, and its direct children.
pub enum JsonNode {
    Null,
    Bool(bool),
    Number(String),
    Str(String),
    Array(Vec<serde_json::Value>),
    Object(Vec<(String, serde_json::Value)>),
}

/// The model of a value, rebuilt from one level of it.
pub open spec fn node_model(n: JsonNode) -> JsonModel {
    match n {
        JsonNode::Null => JsonModel::Null,
        JsonNode::Bool(b) => JsonModel::Bool(b),
        JsonNode::Number(t) => JsonModel::Number(t@),
        JsonNode::Str(s) => JsonModel::Str(s@),
        JsonNode::Array(items) => JsonModel::Array(items@.map_values(|x: serde_json::Value| json_view(x))),
        JsonNode::Object(es) => JsonModel::Object(
            es@.map_values(|e: (String, serde_json::Value)| (e.0@, json_view(e.1))),
        ),
    }
}

/// Relies on serde_json::from_str: reads a text as one JSON value.
#[verifier::external_body]
pub(crate) fn parse_value(s: &str) -> (r: Result<serde_json::Value, String>)
    ensures
        match r {
            Ok(v) => json_parse(s@) == Some(json_view(v)),
            Err(_) => json_parse(s@) is None,
        },
{
    serde_json::from_str::<serde_json::Value>(s).map_err(|e| e.to_string())
}

/// Relies on the variants of serde_json::Value and on the `Display` of
/// serde_json::Number: splits a value into its kind and its children.
#[verifier::external_body]
pub(crate) fn inspect(v: &serde_json::Value) -> (r: JsonNode)
    ensures
        node_model(r) == json_view(*v),
{
    match v {
        serde_json::Value::Null => JsonNode::Null,
        serde_json::Value::Bool(b) => JsonNode::Bool(*b),
        serde_json::Value::Number(n) => JsonNode::Number(n.to_string()),
        serde_json::Value::String(s) => JsonNode::Str(s.clone()),
        serde_json::Value::Array(a) => JsonNode::Array(a.clone()),
        serde_json::Value::Object(o) => JsonNode::Object(o.clone().into_iter().collect()),
    }
}

/// Relies on serde_json::Value::Null.
#[verifier::external_body]
pub(crate) fn null_value() -> (r: serde_json::Value)
    ensures
        json_view(r) == JsonModel::Null,
{
    serde_json::Value::Null
}

/// Relies on serde_json::Value::Bool.
#[verifier::external_body]
pub(crate) fn bool_value(b: bool) -> (r: serde_json::Value)
    ensures
        json_view(r) == JsonModel::Bool(b),
{
    serde_json::Value::Bool(b)
}

/// Relies on serde_json's `From<i64>` for Value: the number prints in decimal.
#[verifier::external_body]
pub(crate) fn int_value(i: i64) -> (r: serde_json::Value)
    ensures
        json_view(r) == JsonModel::Number(int_text(i as int)),
{
    serde_json::Value::from(i)
}

/// Relies on std's parse of a double and on serde_json::Number::from_f64,
/// which refuses the values that are not finite.
#[verifier::external_body]
pub(crate) fn float_value(s: &str) -> (r: Option<serde_json::Value>)
    ensures
        match r {
            Some(v) => float_number(s@) is Some && json_view(v) == JsonModel::Number(
                float_number(s@)->0,
            ),
            None => float_number(s@) is None,
        },
{
    s.parse().ok().and_then(serde_json::Number::from_f64).map(serde_json::Value::Number)
}

/// Relies on serde_json::Value::String.
#[verifier::external_body]
pub(crate) fn string_value(s: String) -> (r: serde_json::Value)
    ensures
        json_view(r) == JsonModel::Str(s@),
{
    serde_json::Value::String(s)
}

/// Relies on serde_json::Value::Array.
#[verifier::external_body]
pub(crate) fn array_value(items: Vec<serde_json::Value>) -> (r: serde_json::Value)
    ensures
        json_view(r) == JsonModel::Array(items@.map_values(|x: serde_json::Value| json_view(x))),
{
    serde_json::Value::Array(items)
}

/// Relies on collecting pairs into a serde_json::Map, an insertion-ordered
/// map whose `insert` keeps the place of a key already present.
#[verifier::external_body]
pub(crate) fn object_value(entries: Vec<(String, serde_json::Value)>) -> (r: serde_json::Value)
    ensures
        json_view(r) == JsonModel::Object(
            assoc_from(entries@.map_values(|e: (String, serde_json::Value)| (e.0@, json_view(e.1)))),
        ),
{
    serde_json::Value::Object(entries.into_iter().collect())
}

/// Relies on serde_json::to_string, which cannot fail on a Value.
#[verifier::external_body]
pub(crate) fn to_compact(v: &serde_json::Value) -> (r: String)
    ensures
        r@ == compact_text(json_view(*v)),
{
    serde_json::to_string(v).unwrap_or_default()
}

/// Relies on serde_json::to_string_pretty, which cannot fail on a Value.
#[verifier::external_body]
pub(crate) fn to_pretty(v: &serde_json::Value) -> (r: String)
    ensures
        r@ == pretty_text(json_view(*v)),
{
    serde_json::to_string_pretty(v).unwrap_or_default()
}

} // verus!
