//! Writing headers and rows back as CSV, JSON or JSON Lines text.
use vstd::prelude::*;
use vstd::string::StringExecFns;
use crate::coerce::{decoded, string_to_value};
use crate::json::{
    JsonModel, json_view, compact_text, pretty_text, assoc_from, array_value, object_value,
    to_compact, to_pretty,
};
use crate::readers::{key_text, texts, text_rows, value_text};
use crate::table::{JsonShape, TableError};
use crate::text::same_text;

verus! {

/// The cell of a row at a column; nothing past the row's end.
pub open spec fn cell_at(row: Seq<Seq<char>>, i: int) -> Seq<char> {
    if 0 <= i < row.len() {
        row[i]
    } else {
        Seq::empty()
    }
}

/// The pairs that a row puts in its object: each header with the value of
/// the cell below it.
pub open spec fn row_entries(hs: Seq<Seq<char>>, row: Seq<Seq<char>>) -> Seq<(Seq<char>, JsonModel)> {
    Seq::new(hs.len(), |i: int| (hs[i], decoded(cell_at(row, i))))
}

/// A row as a JSON object keyed by the headers.
pub open spec fn row_object(hs: Seq<Seq<char>>, row: Seq<Seq<char>>) -> JsonModel {
    JsonModel::Object(assoc_from(row_entries(hs, row)))
}

/// The rows as an array of objects.
pub open spec fn array_model(hs: Seq<Seq<char>>, rows: Seq<Seq<Seq<char>>>) -> JsonModel {
    JsonModel::Array(rows.map_values(|r: Seq<Seq<char>>| row_object(hs, r)))
}

/// The pairs of `Key`/`Value` rows, the rows with an empty key left out.
pub open spec fn pair_entries(rows: Seq<Seq<Seq<char>>>) -> Seq<(Seq<char>, JsonModel)>
    decreases rows.len(),
{
    if rows.len() == 0 {
        Seq::empty()
    } else {
        let before = pair_entries(rows.drop_last());
        let key = cell_at(rows.last(), 0);
        if key.len() == 0 {
            before
        } else {
            before.push((key, decoded(cell_at(rows.last(), 1))))
        }
    }
}

/// The `Key`/`Value` rows as one object.
pub open spec fn object_model(rows: Seq<Seq<Seq<char>>>) -> JsonModel {
    JsonModel::Object(assoc_from(pair_entries(rows)))
}

/// Whether the headers are exactly `Key` then `Value`.
pub open spec fn is_key_value(hs: Seq<Seq<char>>) -> bool {
    hs.len() == 2 && hs[0] == key_text() && hs[1] == value_text()
}

/// The JSON value that a table is saved as: one object where the shape is
/// `Object` and the headers are `Key` and `Value`, else an array of objects.
pub open spec fn json_model(hs: Seq<Seq<char>>, rows: Seq<Seq<Seq<char>>>, shape: JsonShape) -> JsonModel {
    if shape == JsonShape::Object && is_key_value(hs) {
        object_model(rows)
    } else {
        array_model(hs, rows)
    }
}

/// The JSON Lines text of some rows: each row's object in compact JSON,
/// each followed by a newline.
pub open spec fn jsonl_text(hs: Seq<Seq<char>>, rows: Seq<Seq<Seq<char>>>) -> Seq<char>
    decreases rows.len(),
{
    if rows.len() == 0 {
        Seq::empty()
    } else {
        jsonl_text(hs, rows.drop_last()) + compact_text(row_object(hs, rows.last())) + seq!['\n']
    }
}

/// The CSV text that the csv crate writes for some records, with its default
/// settings; `None` where it refuses them.
pub uninterp spec fn csv_written(records: Seq<Seq<Seq<char>>>) -> Option<Seq<char>>;

/// Relies on csv::Writer over a byte buffer: writes each record in turn.
#[verifier::external_body]
fn csv_text(records: &Vec<Vec<String>>) -> (r: Result<String, String>)
    ensures
        match r {
            Ok(t) => csv_written(text_rows(records@)) == Some(t@),
            Err(_) => csv_written(text_rows(records@)) is None,
        },
{
    let mut w = csv::Writer::from_writer(Vec::new());
    records.iter().try_for_each(|rec| w.write_record(rec)).map_err(|e| e.to_string())?;
    let bytes = w.into_inner().map_err(|e| e.to_string())?;
    String::from_utf8(bytes).map_err(|e| e.to_string())
}

/// A row as a JSON object keyed by the headers, each cell decoded.
fn row_value(hs: &Vec<String>, row: &Vec<String>) -> (r: serde_json::Value)
    ensures
        json_view(r) == row_object(texts(hs@), texts(row@)),
{
    let ghost want = row_entries(texts(hs@), texts(row@));
    let mut entries: Vec<(String, serde_json::Value)> = Vec::new();
    let mut i: usize = 0;
    while i < hs.len()
        invariant
            i <= hs.len(),
            want == row_entries(texts(hs@), texts(row@)),
            entries@.map_values(|e: (String, serde_json::Value)| (e.0@, json_view(e.1)))
                == want.subrange(0, i as int),
        decreases hs.len() - i,
    {
        let v = if i < row.len() {
            string_to_value(row[i].as_str())
        } else {
            string_to_value("")
        };
        proof {
            reveal_strlit("");
        }
        let ghost prev = entries@;
        let ghost pair = (hs@[i as int]@, json_view(v));
        entries.push((hs[i].clone(), v));
        assert(pair == want[i as int]);
        assert(entries@.map_values(|e: (String, serde_json::Value)| (e.0@, json_view(e.1))) =~= prev.map_values(
            |e: (String, serde_json::Value)| (e.0@, json_view(e.1)),
        ).push(pair));
        assert(entries@.map_values(|e: (String, serde_json::Value)| (e.0@, json_view(e.1))) =~= want.subrange(
            0,
            i + 1,
        ));
        i = i + 1;
    }
    assert(want.subrange(0, hs.len() as int) =~= want);
    object_value(entries)
}

/// The `Key`/`Value` rows as one object; a row with an empty key gives nothing.
fn pairs_value(rows: &Vec<Vec<String>>) -> (r: serde_json::Value)
    ensures
        json_view(r) == object_model(text_rows(rows@)),
{
    let ghost all = text_rows(rows@);
    let mut entries: Vec<(String, serde_json::Value)> = Vec::new();
    let mut i: usize = 0;
    while i < rows.len()
        invariant
            i <= rows.len(),
            all == text_rows(rows@),
            entries@.map_values(|e: (String, serde_json::Value)| (e.0@, json_view(e.1)))
                == pair_entries(all.subrange(0, i as int)),
        decreases rows.len() - i,
    {
        let row = &rows[i];
        assert(all.subrange(0, i + 1).drop_last() =~= all.subrange(0, i as int));
        assert(all[i as int] == texts(row@));
        if row.len() > 0 && !row[0].as_str().is_empty() {
            let v = if row.len() > 1 {
                string_to_value(row[1].as_str())
            } else {
                string_to_value("")
            };
            proof {
                reveal_strlit("");
            }
            let ghost prev = entries@;
            let ghost pair = (row@[0]@, json_view(v));
            entries.push((row[0].clone(), v));
            assert(entries@.map_values(|e: (String, serde_json::Value)| (e.0@, json_view(e.1))) =~= prev.map_values(
                |e: (String, serde_json::Value)| (e.0@, json_view(e.1)),
            ).push(pair));
        }
        i = i + 1;
    }
    assert(all.subrange(0, rows.len() as int) =~= all);
    object_value(entries)
}

fn key_value_headers(hs: &Vec<String>) -> (r: bool)
    ensures
        r == is_key_value(texts(hs@)),
{
    proof {
        reveal_strlit("Key");
        reveal_strlit("Value");
        assert("Key"@ =~= key_text());
        assert("Value"@ =~= value_text());
    }
    hs.len() == 2 && same_text(hs[0].as_str(), "Key") && same_text(hs[1].as_str(), "Value")
}

/// The JSON text of a table: one object for a `Key`/`Value` table whose
/// shape is `Object`, an array of objects otherwise; indented.
pub fn write_json(headers: &Vec<String>, rows: &Vec<Vec<String>>, shape: JsonShape) -> (r: String)
    ensures
        r@ == pretty_text(json_model(texts(headers@), text_rows(rows@), shape)),
{
    if shape == JsonShape::Object && key_value_headers(headers) {
        let v = pairs_value(rows);
        to_pretty(&v)
    } else {
        let mut items: Vec<serde_json::Value> = Vec::new();
        let mut i: usize = 0;
        while i < rows.len()
            invariant
                i <= rows.len(),
                items@.map_values(|x: serde_json::Value| json_view(x))
                    == text_rows(rows@).map_values(|r: Seq<Seq<char>>| row_object(texts(headers@), r)).subrange(0, i as int),
            decreases rows.len() - i,
        {
            let v = row_value(headers, &rows[i]);
            let ghost prev = items@;
            items.push(v);
            assert(items@.map_values(|x: serde_json::Value| json_view(x)) =~= prev.map_values(
                |x: serde_json::Value| json_view(x),
            ).push(json_view(v)));
            assert(items@.map_values(|x: serde_json::Value| json_view(x)) =~= text_rows(rows@).map_values(
                |r: Seq<Seq<char>>| row_object(texts(headers@), r),
            ).subrange(0, i + 1));
            i = i + 1;
        }
        assert(text_rows(rows@).map_values(|r: Seq<Seq<char>>| row_object(texts(headers@), r)).subrange(
            0,
            rows.len() as int,
        ) =~= text_rows(rows@).map_values(|r: Seq<Seq<char>>| row_object(texts(headers@), r)));
        let v = array_value(items);
        to_pretty(&v)
    }
}

/// The JSON Lines text of a table: one compact object per row, each on a line.
pub fn write_jsonl(headers: &Vec<String>, rows: &Vec<Vec<String>>) -> (r: String)
    ensures
        r@ == jsonl_text(texts(headers@), text_rows(rows@)),
{
    let ghost all = text_rows(rows@);
    let mut out = String::new();
    let mut i: usize = 0;
    while i < rows.len()
        invariant
            i <= rows.len(),
            all == text_rows(rows@),
            out@ == jsonl_text(texts(headers@), all.subrange(0, i as int)),
        decreases rows.len() - i,
    {
        assert(all.subrange(0, i + 1).drop_last() =~= all.subrange(0, i as int));
        let v = row_value(headers, &rows[i]);
        let line = to_compact(&v);
        out.append(line.as_str());
        out.append("\n");
        proof {
            reveal_strlit("\n");
            assert("\n"@ =~= seq!['\n']);
        }
        i = i + 1;
    }
    assert(all.subrange(0, rows.len() as int) =~= all);
    out
}

/// A row with empty cells added up to `n` cells; a longer row stays as it is.
pub open spec fn padded(row: Seq<Seq<char>>, n: nat) -> Seq<Seq<char>> {
    Seq::new(if row.len() < n { n } else { row.len() }, |i: int| cell_at(row, i))
}

/// The records of a table's CSV text: the header, then each row padded to
/// the header's width.
pub open spec fn csv_records(hs: Seq<Seq<char>>, rows: Seq<Seq<Seq<char>>>) -> Seq<Seq<Seq<char>>> {
    seq![hs] + rows.map_values(|r: Seq<Seq<char>>| padded(r, hs.len()))
}

fn pad_row(row: &Vec<String>, n: usize) -> (r: Vec<String>)
    ensures
        texts(r@) == padded(texts(row@), n as nat),
{
    let mut out = row.clone();
    assert(texts(out@) =~= texts(row@));
    while out.len() < n
        invariant
            out.len() >= row.len(),
            row.len() < n ==> out.len() <= n,
            row.len() >= n ==> out.len() == row.len(),
            texts(out@) =~= Seq::new(out.len() as nat, |i: int| cell_at(texts(row@), i)),
        decreases n - out.len(),
    {
        let ghost prev = out@;
        out.push(String::new());
        assert(texts(out@) =~= texts(prev).push(Seq::empty()));
    }
    assert(texts(out@) =~= padded(texts(row@), n as nat));
    out
}

/// The CSV text of a table: the header record, then each row, a short row
/// padded with empty cells to the header's width.
pub fn write_csv(headers: &Vec<String>, rows: &Vec<Vec<String>>) -> (r: Result<String, TableError>)
    ensures
        match r {
            Ok(t) => csv_written(csv_records(texts(headers@), text_rows(rows@))) == Some(t@),
            Err(e) => e is Serialize && csv_written(csv_records(texts(headers@), text_rows(rows@))) is None,
        },
{
    let ghost want = csv_records(texts(headers@), text_rows(rows@));
    let mut records: Vec<Vec<String>> = Vec::new();
    records.push(headers.clone());
    assert(text_rows(records@) =~= want.subrange(0, 1));
    let mut i: usize = 0;
    while i < rows.len()
        invariant
            i <= rows.len(),
            want == csv_records(texts(headers@), text_rows(rows@)),
            text_rows(records@) == want.subrange(0, i + 1),
        decreases rows.len() - i,
    {
        let ghost prev = records@;
        let row = pad_row(&rows[i], headers.len());
        records.push(row);
        assert(text_rows(records@) =~= text_rows(prev).push(texts(row@)));
        assert(text_rows(records@) =~= want.subrange(0, i + 2));
        i = i + 1;
    }
    assert(want.subrange(0, rows.len() + 1) =~= want);
    match csv_text(&records) {
        Ok(t) => Ok(t),
        Err(msg) => Err(TableError::Serialize(msg)),
    }
}

} // verus!
