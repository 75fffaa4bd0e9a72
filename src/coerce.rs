//! Between JSON values and the text of table cells.
use vstd::prelude::*;
use crate::json::{
    JsonModel, JsonNode, json_view, json_parse, compact_text, float_number, int_text, inspect,
    to_compact, parse_value, null_value, bool_value, int_value, float_value, string_value,
};
use crate::text::same_text;
use vstd::string::StringExecFns;

verus! {

/// The text `true`.
pub open spec fn true_text() -> Seq<char> {
    seq!['t', 'r', 'u', 'e']
}

/// The text `false`.
pub open spec fn false_text() -> Seq<char> {
    seq!['f', 'a', 'l', 's', 'e']
}

/// The text of a cell that holds a JSON value: nothing for null, `true` or
/// `false`, a number's decimal text, a string itself, and compact JSON for an
/// array or an object.
pub open spec fn encoded(m: JsonModel) -> Seq<char> {
    match m {
        JsonModel::Null => Seq::empty(),
        JsonModel::Bool(b) => if b { true_text() } else { false_text() },
        JsonModel::Number(t) => t,
        JsonModel::Str(s) => s,
        _ => compact_text(m),
    }
}

/// Whether a character is a decimal digit.
pub open spec fn is_digit(c: char) -> bool {
    '0' <= c && c <= '9'
}

/// The value of a run of decimal digits.
pub open spec fn digits_value(ds: Seq<char>) -> int
    decreases ds.len(),
{
    if ds.len() == 0 {
        0
    } else {
        digits_value(ds.drop_last()) * 10 + ((ds.last() as u32) - 48)
    }
}

/// A text without its leading `+` or `-`, if any.
pub open spec fn unsigned_part(s: Seq<char>) -> Seq<char> {
    if s.len() > 0 && (s[0] == '-' || s[0] == '+') {
        s.drop_first()
    } else {
        s
    }
}

/// Whether a text is one decimal digit or more.
pub open spec fn all_digits(ds: Seq<char>) -> bool {
    ds.len() > 0 && forall|i: int| 0 <= i < ds.len() ==> is_digit(#[trigger] ds[i])
}

/// The 64-bit signed integer that a text spells: an optional `+` or `-`,
/// then one digit or more, with a value in range.
pub open spec fn int_of(s: Seq<char>) -> Option<int> {
    let ds = unsigned_part(s);
    let v = if s.len() > 0 && s[0] == '-' { -digits_value(ds) } else { digits_value(ds) };
    if all_digits(ds) && i64::MIN <= v <= i64::MAX {
        Some(v)
    } else {
        None
    }
}

/// The JSON value that a cell's text stands for: null for nothing; the
/// JSON that it reads as; the booleans; an integer; a finite double; and
/// else the text as a string, tried in this order.
pub open spec fn decoded(s: Seq<char>) -> JsonModel {
    if s.len() == 0 {
        JsonModel::Null
    } else if json_parse(s) is Some {
        json_parse(s)->0
    } else if s == true_text() {
        JsonModel::Bool(true)
    } else if s == false_text() {
        JsonModel::Bool(false)
    } else if int_of(s) is Some {
        JsonModel::Number(int_text(int_of(s)->0))
    } else if float_number(s) is Some {
        JsonModel::Number(float_number(s)->0)
    } else {
        JsonModel::Str(s)
    }
}

proof fn lemma_digits_prefix(ds: Seq<char>, k: int)
    requires
        0 <= k <= ds.len(),
        forall|i: int| 0 <= i < ds.len() ==> is_digit(#[trigger] ds[i]),
    ensures
        0 <= digits_value(ds.take(k)) <= digits_value(ds),
    decreases ds.len(),
{
    if ds.len() > 0 {
        let init = ds.drop_last();
        assert forall|i: int| 0 <= i < init.len() implies is_digit(#[trigger] init[i]) by {
            assert(init[i] == ds[i]);
        }
        assert(is_digit(ds[ds.len() - 1]));
        if k == ds.len() {
            assert(ds.take(k) =~= ds);
            lemma_digits_prefix(init, init.len() as int);
            assert(init.take(init.len() as int) =~= init);
        } else {
            lemma_digits_prefix(init, k);
            assert(init.take(k) =~= ds.take(k));
        }
    } else {
        assert(ds.take(k) =~= ds);
    }
}

/// Reads a 64-bit signed integer: an optional `+` or `-`, then one decimal
/// digit or more, with a value in range.
fn parse_int(s: &str) -> (r: Option<i64>)
    ensures
        match r {
            Some(i) => int_of(s@) == Some(i as int),
            None => int_of(s@) is None,
        },
{
    let cs = crate::text::chars_of(s);
    let neg = cs.len() > 0 && cs[0] == '-';
    let start: usize = if cs.len() > 0 && (cs[0] == '-' || cs[0] == '+') { 1 } else { 0 };
    let ghost ds = unsigned_part(s@);
    assert(ds =~= cs@.skip(start as int));
    if start >= cs.len() {
        assert(ds.len() == 0);
        assert(!all_digits(ds));
        assert(int_of(s@) is None);
        return None;
    }
    let limit: u128 = 0x8000_0000_0000_0000;
    let mut acc: u128 = 0;
    let mut k: usize = start;
    assert(ds.take(0) =~= Seq::<char>::empty());
    while k < cs.len()
        invariant
            start <= k <= cs.len(),
            ds =~= cs@.skip(start as int),
            forall|i: int| 0 <= i < k - start ==> is_digit(#[trigger] ds[i]),
            acc as int == digits_value(ds.take(k - start)),
            acc <= limit,
            limit == 0x8000_0000_0000_0000,
            ds == unsigned_part(s@),
            cs@ == s@,
        decreases cs.len() - k,
    {
        let c = cs[k];
        if c < '0' || c > '9' {
            assert(!is_digit(ds[k - start]));
            return None;
        }
        let d = (c as u32 - 48) as u128;
        assert(ds.take(k - start + 1).drop_last() =~= ds.take(k - start));
        assert(ds.take(k - start + 1).last() == c);
        assert(acc * 10 <= 0x8000_0000_0000_0000 * 10) by (nonlinear_arith)
            requires
                acc <= 0x8000_0000_0000_0000,
        ;
        acc = acc * 10 + d;
        k = k + 1;
        if acc > limit {
            proof {
                if all_digits(ds) {
                    lemma_digits_prefix(ds, k - start);
                }
            }
            return None;
        }
    }
    assert(ds.take(k - start) =~= ds);
    if neg {
        Some((0 - (acc as i128)) as i64)
    } else if acc < limit {
        Some(acc as i64)
    } else {
        None
    }
}

fn text_true() -> (r: String)
    ensures
        r@ == true_text(),
{
    let r = <String as StringExecFns>::from_str("true");
    proof {
        reveal_strlit("true");
        assert("true"@ =~= true_text());
    }
    r
}

fn text_false() -> (r: String)
    ensures
        r@ == false_text(),
{
    let r = <String as StringExecFns>::from_str("false");
    proof {
        reveal_strlit("false");
        assert("false"@ =~= false_text());
    }
    r
}

/// The text that a table cell shows for a JSON value.
pub fn value_to_string(value: &serde_json::Value) -> (r: String)
    ensures
        r@ == encoded(json_view(*value)),
{
    let node = inspect(value);
    match node {
        JsonNode::Null => String::new(),
        JsonNode::Bool(b) => if b { text_true() } else { text_false() },
        JsonNode::Number(t) => t,
        JsonNode::Str(s) => s,
        JsonNode::Array(_) => to_compact(value),
        JsonNode::Object(_) => to_compact(value),
    }
}

/// The JSON value that a table cell's text is saved as.
pub fn string_to_value(s: &str) -> (r: serde_json::Value)
    ensures
        json_view(r) == decoded(s@),
{
    if s.is_empty() {
        return null_value();
    }
    match parse_value(s) {
        Ok(v) => {
            return v;
        },
        Err(_) => {},
    }
    proof {
        reveal_strlit("true");
        reveal_strlit("false");
        assert("true"@ =~= true_text());
        assert("false"@ =~= false_text());
    }
    if same_text(s, "true") {
        return bool_value(true);
    }
    if same_text(s, "false") {
        return bool_value(false);
    }
    match parse_int(s) {
        Some(i) => {
            return int_value(i);
        },
        None => {},
    }
    match float_value(s) {
        Some(v) => v,
        None => string_value(<String as StringExecFns>::from_str(s)),
    }
}

} // verus!
