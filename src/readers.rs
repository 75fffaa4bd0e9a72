//! Reading CSV, JSON and JSON Lines text into headers and rows.
use vstd::prelude::*;
use vstd::string::StringExecFns;
use crate::coerce::{encoded, value_to_string};
use crate::json::{JsonModel, JsonNode, json_view, json_parse, inspect, parse_value};
use crate::table::{JsonShape, TableError};
use crate::text::{chars_of, lines_of, sanitize_json_string, sanitized, split_lines, string_of, trim, trimmed};

verus! {

/// The entries of a JSON object, in order.
pub type Entries = Seq<(Seq<char>, JsonModel)>;

/// The texts that a vector of strings holds.
pub open spec fn texts(v: Seq<String>) -> Seq<Seq<char>> {
    v.map_values(|s: String| s@)
}

/// The rows of texts that a vector of rows holds.
pub open spec fn text_rows(v: Seq<Vec<String>>) -> Seq<Seq<Seq<char>>> {
    v.map_values(|r: Vec<String>| texts(r@))
}

/// The model of the entries of an object held as pairs.
pub open spec fn entries_view(o: Seq<(String, serde_json::Value)>) -> Entries {
    o.map_values(|e: (String, serde_json::Value)| (e.0@, json_view(e.1)))
}

/// The model of a list of objects held as pairs.
pub open spec fn objects_view(objs: Seq<Vec<(String, serde_json::Value)>>) -> Seq<Entries> {
    objs.map_values(|o: Vec<(String, serde_json::Value)>| entries_view(o@))
}

/// The objects among some JSON values, in order; the other values are left out.
pub open spec fn objects_in(items: Seq<JsonModel>) -> Seq<Entries>
    decreases items.len(),
{
    if items.len() == 0 {
        Seq::empty()
    } else {
        let before = objects_in(items.drop_last());
        match items.last() {
            JsonModel::Object(es) => before.push(es),
            _ => before,
        }
    }
}

/// `hs` followed by the keys of `es` that it lacks, in first-seen order.
pub open spec fn add_keys(hs: Seq<Seq<char>>, es: Entries) -> Seq<Seq<char>>
    decreases es.len(),
{
    if es.len() == 0 {
        hs
    } else {
        let before = add_keys(hs, es.drop_last());
        if before.contains(es.last().0) {
            before
        } else {
            before.push(es.last().0)
        }
    }
}

/// Every key of some objects, once each, in the order in which they are first seen.
pub open spec fn key_union(objs: Seq<Entries>) -> Seq<Seq<char>>
    decreases objs.len(),
{
    if objs.len() == 0 {
        Seq::empty()
    } else {
        add_keys(key_union(objs.drop_last()), objs.last())
    }
}

/// The value of the first entry under `k`.
pub open spec fn lookup(es: Entries, k: Seq<char>) -> Option<JsonModel>
    decreases es.len(),
{
    if es.len() == 0 {
        None
    } else if es[0].0 == k {
        Some(es[0].1)
    } else {
        lookup(es.drop_first(), k)
    }
}

/// The cell of an object under a header: its value's text, or nothing.
pub open spec fn cell_of(es: Entries, h: Seq<char>) -> Seq<char> {
    match lookup(es, h) {
        Some(v) => encoded(v),
        None => Seq::empty(),
    }
}

/// An object as a row, one cell per header.
pub open spec fn row_of(hs: Seq<Seq<char>>, es: Entries) -> Seq<Seq<char>> {
    Seq::new(hs.len(), |i: int| cell_of(es, hs[i]))
}

/// The rows of some objects under a header list.
pub open spec fn rows_of(hs: Seq<Seq<char>>, objs: Seq<Entries>) -> Seq<Seq<Seq<char>>> {
    objs.map_values(|es: Entries| row_of(hs, es))
}

/// The header `Key`.
pub open spec fn key_text() -> Seq<char> {
    seq!['K', 'e', 'y']
}

/// The header `Value`.
pub open spec fn value_text() -> Seq<char> {
    seq!['V', 'a', 'l', 'u', 'e']
}

/// A JSON object as a two-column table: one row per entry, key and value's text.
pub open spec fn pair_rows(es: Entries) -> Seq<Seq<Seq<char>>> {
    es.map_values(|e: (Seq<char>, JsonModel)| seq![e.0, encoded(e.1)])
}

/// The table that a JSON document gives: `None` where the text is not JSON
/// or its root is neither an array nor an object.
pub open spec fn json_table(s: Seq<char>) -> Option<(Seq<Seq<char>>, Seq<Seq<Seq<char>>>, JsonShape)> {
    match json_parse(sanitized(s)) {
        Some(JsonModel::Array(items)) => {
            let objs = objects_in(items);
            Some((key_union(objs), rows_of(key_union(objs), objs), JsonShape::Array))
        },
        Some(JsonModel::Object(es)) => Some((seq![key_text(), value_text()], pair_rows(es), JsonShape::Object)),
        _ => None,
    }
}

/// The objects that the lines of a JSON Lines text hold; blank lines and
/// lines that are not a JSON object are left out.
pub open spec fn line_objects(lines: Seq<Seq<char>>) -> Seq<Entries>
    decreases lines.len(),
{
    if lines.len() == 0 {
        Seq::empty()
    } else {
        let before = line_objects(lines.drop_last());
        let t = trimmed(lines.last());
        if t.len() > 0 {
            match json_parse(t) {
                Some(JsonModel::Object(es)) => before.push(es),
                _ => before,
            }
        } else {
            before
        }
    }
}

/// The objects of a JSON Lines text, once stray control characters are replaced.
pub open spec fn jsonl_objects(s: Seq<char>) -> Seq<Entries> {
    line_objects(split_lines(sanitized(s)))
}

fn contains_text(hs: &Vec<String>, k: &String) -> (r: bool)
    ensures
        r == texts(hs@).contains(k@),
{
    let mut i: usize = 0;
    while i < hs.len()
        invariant
            i <= hs.len(),
            forall|j: int| 0 <= j < i ==> hs@[j]@ != k@,
        decreases hs.len() - i,
    {
        if crate::text::same_text(hs[i].as_str(), k.as_str()) {
            assert(texts(hs@)[i as int] == k@);
            return true;
        }
        i = i + 1;
    }
    proof {
        if texts(hs@).contains(k@) {
            let j = choose|j: int| 0 <= j < texts(hs@).len() && texts(hs@)[j] == k@;
            assert(hs@[j]@ == k@);
        }
    }
    false
}

/// The objects among some values, each as its entries.
fn collect_objects(items: &Vec<serde_json::Value>) -> (r: Vec<Vec<(String, serde_json::Value)>>)
    ensures
        objects_view(r@) == objects_in(items@.map_values(|x: serde_json::Value| json_view(x))),
{
    let ghost model = items@.map_values(|x: serde_json::Value| json_view(x));
    let mut out: Vec<Vec<(String, serde_json::Value)>> = Vec::new();
    let mut i: usize = 0;
    while i < items.len()
        invariant
            i <= items.len(),
            model == items@.map_values(|x: serde_json::Value| json_view(x)),
            objects_view(out@) == objects_in(model.subrange(0, i as int)),
        decreases items.len() - i,
    {
        assert(model.subrange(0, i + 1).drop_last() =~= model.subrange(0, i as int));
        match inspect(&items[i]) {
            JsonNode::Object(es) => {
                out.push(es);
                assert(objects_view(out@) =~= objects_in(model.subrange(0, i + 1)));
            },
            _ => {},
        }
        i = i + 1;
    }
    assert(model.subrange(0, items.len() as int) =~= model);
    out
}

/// Every key of some objects, once each, in first-seen order.
fn header_union(objs: &Vec<Vec<(String, serde_json::Value)>>) -> (r: Vec<String>)
    ensures
        texts(r@) == key_union(objects_view(objs@)),
{
    let ghost all = objects_view(objs@);
    let mut hs: Vec<String> = Vec::new();
    let mut i: usize = 0;
    while i < objs.len()
        invariant
            i <= objs.len(),
            all == objects_view(objs@),
            texts(hs@) == key_union(all.subrange(0, i as int)),
        decreases objs.len() - i,
    {
        let o = &objs[i];
        let ghost es = entries_view(o@);
        let ghost start = texts(hs@);
        let mut j: usize = 0;
        assert(es.subrange(0, 0) =~= Seq::<(Seq<char>, JsonModel)>::empty());
        while j < o.len()
            invariant
                j <= o.len(),
                es == entries_view(o@),
                texts(hs@) == add_keys(start, es.subrange(0, j as int)),
            decreases o.len() - j,
        {
            assert(es.subrange(0, j + 1).drop_last() =~= es.subrange(0, j as int));
            let k = &o[j].0;
            if !contains_text(&hs, k) {
                hs.push(k.clone());
                assert(texts(hs@) =~= add_keys(start, es.subrange(0, j + 1)));
            }
            j = j + 1;
        }
        assert(es.subrange(0, o.len() as int) =~= es);
        assert(all.subrange(0, i + 1).drop_last() =~= all.subrange(0, i as int));
        i = i + 1;
    }
    assert(all.subrange(0, objs.len() as int) =~= all);
    hs
}

/// The cell of an object under a header.
fn cell(o: &Vec<(String, serde_json::Value)>, h: &String) -> (r: String)
    ensures
        r@ == cell_of(entries_view(o@), h@),
{
    let ghost es = entries_view(o@);
    let mut i: usize = 0;
    assert(es.skip(0) =~= es);
    while i < o.len()
        invariant
            i <= o.len(),
            es == entries_view(o@),
            lookup(es, h@) == lookup(es.skip(i as int), h@),
        decreases o.len() - i,
    {
        if crate::text::same_text(o[i].0.as_str(), h.as_str()) {
            return value_to_string(&o[i].1);
        }
        assert(es.skip(i as int).drop_first() =~= es.skip(i + 1));
        i = i + 1;
    }
    String::new()
}

/// One row per object, one cell per header.
fn build_rows(hs: &Vec<String>, objs: &Vec<Vec<(String, serde_json::Value)>>) -> (r: Vec<Vec<String>>)
    ensures
        text_rows(r@) == rows_of(texts(hs@), objects_view(objs@)),
{
    let mut rows: Vec<Vec<String>> = Vec::new();
    let mut i: usize = 0;
    while i < objs.len()
        invariant
            i <= objs.len(),
            text_rows(rows@) == rows_of(texts(hs@), objects_view(objs@).subrange(0, i as int)),
        decreases objs.len() - i,
    {
        let mut row: Vec<String> = Vec::new();
        let mut j: usize = 0;
        while j < hs.len()
            invariant
                i < objs.len(),
                j <= hs.len(),
                text_rows(rows@) == rows_of(texts(hs@), objects_view(objs@).subrange(0, i as int)),
                texts(row@) == row_of(texts(hs@), objects_view(objs@)[i as int]).subrange(0, j as int),
            decreases hs.len() - j,
        {
            let c = cell(&objs[i], &hs[j]);
            assert(objects_view(objs@)[i as int] == entries_view(objs@[i as int]@));
            assert(texts(hs@)[j as int] == hs@[j as int]@);
            assert(texts(row@).len() == j);
            assert(row@.len() == j);
            let ghost cv = c@;
            row.push(c);
            assert(row@[j as int]@ == cv);
            assert(texts(row@)[j as int] == row_of(texts(hs@), objects_view(objs@)[i as int])[j as int]);
            assert(texts(row@) =~= row_of(texts(hs@), objects_view(objs@)[i as int]).subrange(0, j + 1));
            j = j + 1;
        }
        assert(texts(row@) =~= row_of(texts(hs@), objects_view(objs@)[i as int]));
        let ghost rv = texts(row@);
        let ghost prev = rows@;
        rows.push(row);
        assert(text_rows(rows@) =~= text_rows(prev).push(rv));
        assert(objects_view(objs@).subrange(0, i + 1) =~= objects_view(objs@).subrange(0, i as int).push(
            objects_view(objs@)[i as int],
        ));
        assert(rows_of(texts(hs@), objects_view(objs@).subrange(0, i + 1)) =~= rows_of(
            texts(hs@),
            objects_view(objs@).subrange(0, i as int),
        ).push(row_of(texts(hs@), objects_view(objs@)[i as int])));
        assert(text_rows(rows@) =~= rows_of(texts(hs@), objects_view(objs@).subrange(0, i + 1)));
        i = i + 1;
    }
    assert(objects_view(objs@).subrange(0, objs.len() as int) =~= objects_view(objs@));
    rows
}

fn key_value_headers() -> (r: Vec<String>)
    ensures
        texts(r@) == seq![key_text(), value_text()],
{
    let k = string_of(&['K', 'e', 'y']);
    let v = string_of(&['V', 'a', 'l', 'u', 'e']);
    let r = vec![k, v];
    assert(texts(r@) =~= seq![key_text(), value_text()]);
    r
}

/// The start of the message for a text that is not JSON.
pub open spec fn bad_json_prefix() -> Seq<char> {
    "Failed to parse JSON: "@
}

/// The message for a JSON document whose root is neither an array nor an object.
pub open spec fn bad_root_message() -> Seq<char> {
    "JSON must be an object or array"@
}

/// Reads a JSON document: an array of objects gives one row per object under
/// the union of their keys; an object gives one `Key`/`Value` row per entry.
pub fn parse_json(content: &str) -> (r: Result<(Vec<String>, Vec<Vec<String>>, JsonShape), TableError>)
    ensures
        match r {
            Ok((hs, rows, shape)) => json_table(content@) == Some((texts(hs@), text_rows(rows@), shape)),
            Err(TableError::Parse(m)) => json_table(content@) is None && if json_parse(
                sanitized(content@),
            ) is None {
                m@.len() >= bad_json_prefix().len() && m@.take(bad_json_prefix().len() as int)
                    == bad_json_prefix()
            } else {
                m@ == bad_root_message()
            },
            Err(_) => false,
        },
{
    let sanitized = sanitize_json_string(content);
    let value = match parse_value(sanitized.as_str()) {
        Ok(v) => v,
        Err(msg) => {
            let mut m = <String as StringExecFns>::from_str("Failed to parse JSON: ");
            proof {
                reveal_strlit("Failed to parse JSON: ");
                assert("Failed to parse JSON: "@ =~= bad_json_prefix());
            }
            m.append(msg.as_str());
            assert(m@.take(bad_json_prefix().len() as int) =~= bad_json_prefix());
            return Err(TableError::Parse(m));
        },
    };
    match inspect(&value) {
        JsonNode::Array(items) => {
            let objs = collect_objects(&items);
            let hs = header_union(&objs);
            let rows = build_rows(&hs, &objs);
            Ok((hs, rows, JsonShape::Array))
        },
        JsonNode::Object(es) => {
            let mut rows: Vec<Vec<String>> = Vec::new();
            let mut i: usize = 0;
            while i < es.len()
                invariant
                    i <= es.len(),
                    text_rows(rows@) == pair_rows(entries_view(es@)).subrange(0, i as int),
                decreases es.len() - i,
            {
                let row = vec![es[i].0.clone(), value_to_string(&es[i].1)];
                assert(entries_view(es@)[i as int] == (es@[i as int].0@, json_view(es@[i as int].1)));
                assert(texts(row@) =~= pair_rows(entries_view(es@))[i as int]);
                assert(text_rows(rows@).len() == i);
                assert(rows@.len() == i);
                let ghost rv = texts(row@);
                rows.push(row);
                assert(text_rows(rows@)[i as int] == rv);
                assert(text_rows(rows@) =~= pair_rows(entries_view(es@)).subrange(0, i + 1));
                i = i + 1;
            }
            assert(pair_rows(entries_view(es@)).subrange(0, es.len() as int) =~= pair_rows(entries_view(es@)));
            Ok((key_value_headers(), rows, JsonShape::Object))
        },
        _ => {
            proof {
                reveal_strlit("JSON must be an object or array");
            }
            Err(TableError::Parse(<String as StringExecFns>::from_str("JSON must be an object or array")))
        },
    }
}

/// Reads a JSON Lines text: each line that holds a JSON object gives a row,
/// under the union of the keys of those objects; other lines are skipped.
pub fn parse_jsonl(content: &str) -> (r: (Vec<String>, Vec<Vec<String>>))
    ensures
        texts(r.0@) == key_union(jsonl_objects(content@)),
        text_rows(r.1@) == rows_of(key_union(jsonl_objects(content@)), jsonl_objects(content@)),
{
    let sanitized = sanitize_json_string(content);
    let cs = chars_of(sanitized.as_str());
    let lines = lines_of(cs.as_slice());
    let ghost ls = lines@.map_values(|l: Vec<char>| l@);
    let mut objs: Vec<Vec<(String, serde_json::Value)>> = Vec::new();
    let mut i: usize = 0;
    while i < lines.len()
        invariant
            i <= lines.len(),
            ls == lines@.map_values(|l: Vec<char>| l@),
            objects_view(objs@) == line_objects(ls.subrange(0, i as int)),
        decreases lines.len() - i,
    {
        assert(ls.subrange(0, i + 1).drop_last() =~= ls.subrange(0, i as int));
        let t = trim(lines[i].as_slice());
        if t.len() > 0 {
            let text = string_of(t.as_slice());
            match parse_value(text.as_str()) {
                Ok(v) => {
                    match inspect(&v) {
                        JsonNode::Object(es) => {
                            objs.push(es);
                            assert(objects_view(objs@) =~= line_objects(ls.subrange(0, i + 1)));
                        },
                        _ => {},
                    }
                },
                Err(_) => {},
            }
        }
        i = i + 1;
    }
    assert(ls.subrange(0, lines.len() as int) =~= ls);
    let hs = header_union(&objs);
    let rows = build_rows(&hs, &objs);
    (hs, rows)
}

/// The header record that the csv crate reads first from a text, flexible
/// about record lengths; `None` where it cannot be read.
pub uninterp spec fn csv_header_of(s: Seq<char>) -> Option<Seq<Seq<char>>>;

/// The records that the csv crate reads after the header from a text,
/// flexible about record lengths; `None` where one cannot be read.
pub uninterp spec fn csv_rows_of(s: Seq<char>) -> Option<Seq<Seq<Seq<char>>>>;

/// Relies on csv::Reader::headers, with a flexible reader over the text.
#[verifier::external_body]
fn csv_header(content: &str) -> (r: Result<Vec<String>, String>)
    ensures
        match r {
            Ok(h) => csv_header_of(content@) == Some(texts(h@)),
            Err(_) => csv_header_of(content@) is None,
        },
{
    let mut rdr = csv::ReaderBuilder::new().flexible(true).from_reader(content.as_bytes());
    rdr.headers().map(|h| h.iter().map(String::from).collect()).map_err(|e| e.to_string())
}

/// Relies on csv::Reader::records, with a flexible reader over the text.
#[verifier::external_body]
fn csv_rows(content: &str) -> (r: Result<Vec<Vec<String>>, String>)
    ensures
        match r {
            Ok(rows) => csv_rows_of(content@) == Some(text_rows(rows@)),
            Err(_) => csv_rows_of(content@) is None,
        },
{
    let mut rdr = csv::ReaderBuilder::new().flexible(true).from_reader(content.as_bytes());
    rdr.records()
        .map(|rec| rec.map(|r| r.iter().map(String::from).collect()))
        .collect::<Result<Vec<Vec<String>>, csv::Error>>()
        .map_err(|e| e.to_string())
}

/// Whether the header at `i` is the first one under its name.
pub open spec fn first_of_name(hs: Seq<Seq<char>>, i: int) -> bool {
    !hs.subrange(0, i).contains(hs[i])
}

/// The cells of a record in the first `n` columns whose header is the first
/// under its name; columns past the record's end give nothing.
pub open spec fn kept_cells(hs: Seq<Seq<char>>, rec: Seq<Seq<char>>, n: nat) -> Seq<Seq<char>>
    decreases n,
{
    if n == 0 {
        Seq::empty()
    } else {
        let before = kept_cells(hs, rec, (n - 1) as nat);
        if first_of_name(hs, n - 1) && n - 1 < rec.len() {
            before.push(rec[n - 1])
        } else {
            before
        }
    }
}

/// The header of a CSV table: each name once, at its first column.
pub open spec fn csv_headers(hs: Seq<Seq<char>>) -> Seq<Seq<char>> {
    kept_cells(hs, hs, hs.len())
}

/// The rows of a CSV table: each record in the header's kept columns, so
/// never longer than the header.
pub open spec fn csv_table_rows(hs: Seq<Seq<char>>, recs: Seq<Seq<Seq<char>>>) -> Seq<Seq<Seq<char>>> {
    recs.map_values(|r: Seq<Seq<char>>| kept_cells(hs, r, hs.len()))
}

/// Whether a table keeps its invariants: distinct headers, and no row with
/// more cells than there are headers.
pub open spec fn well_formed(hs: Seq<Seq<char>>, rows: Seq<Seq<Seq<char>>>) -> bool {
    hs.no_duplicates() && forall|i: int| 0 <= i < rows.len() ==> (#[trigger] rows[i]).len() <= hs.len()
}

proof fn lemma_kept_from_prefix(hs: Seq<Seq<char>>, n: nat)
    requires
        n <= hs.len(),
    ensures
        forall|k: int| 0 <= k < kept_cells(hs, hs, n).len() ==> hs.subrange(0, n as int).contains(
            #[trigger] kept_cells(hs, hs, n)[k],
        ),
        kept_cells(hs, hs, n).no_duplicates(),
    decreases n,
{
    if n > 0 {
        let m = (n - 1) as nat;
        lemma_kept_from_prefix(hs, m);
        let before = kept_cells(hs, hs, m);
        assert forall|k: int| 0 <= k < kept_cells(hs, hs, n).len() implies hs.subrange(0, n as int).contains(
            #[trigger] kept_cells(hs, hs, n)[k],
        ) by {
            if k < before.len() {
                assert(hs.subrange(0, m as int).contains(before[k]));
                let j = choose|j: int| 0 <= j < m && hs.subrange(0, m as int)[j] == before[k];
                assert(hs.subrange(0, n as int)[j] == before[k]);
            } else {
                assert(hs.subrange(0, n as int)[m as int] == hs[m as int]);
            }
        }
        if first_of_name(hs, m as int) {
            assert forall|k: int| 0 <= k < before.len() implies before[k] != hs[m as int] by {
                assert(hs.subrange(0, m as int).contains(before[k]));
            }
        }
    }
}

proof fn lemma_kept_shorter(hs: Seq<Seq<char>>, rec: Seq<Seq<char>>, n: nat)
    requires
        n <= hs.len(),
    ensures
        kept_cells(hs, rec, n).len() <= kept_cells(hs, hs, n).len(),
    decreases n,
{
    if n > 0 {
        lemma_kept_shorter(hs, rec, (n - 1) as nat);
    }
}

/// A CSV table has distinct headers, and no row longer than its header.
pub proof fn lemma_csv_well_formed(hs: Seq<Seq<char>>, recs: Seq<Seq<Seq<char>>>)
    ensures
        well_formed(csv_headers(hs), csv_table_rows(hs, recs)),
{
    lemma_kept_from_prefix(hs, hs.len());
    assert forall|i: int| 0 <= i < recs.len() implies (#[trigger] csv_table_rows(hs, recs)[i]).len()
        <= csv_headers(hs).len() by {
        lemma_kept_shorter(hs, recs[i], hs.len());
    }
}

/// For each column, whether its header is the first one under its name.
fn first_flags(hs: &Vec<String>) -> (r: Vec<bool>)
    ensures
        r.len() == hs.len(),
        forall|i: int| 0 <= i < hs.len() ==> r[i] == first_of_name(texts(hs@), i),
{
    let ghost t = texts(hs@);
    let mut flags: Vec<bool> = Vec::new();
    let mut i: usize = 0;
    while i < hs.len()
        invariant
            i <= hs.len(),
            t == texts(hs@),
            flags.len() == i,
            forall|k: int| 0 <= k < i ==> flags[k] == first_of_name(t, k),
        decreases hs.len() - i,
    {
        let mut seen = false;
        let mut j: usize = 0;
        while j < i
            invariant
                j <= i < hs.len(),
                t == texts(hs@),
                seen == exists|k: int| 0 <= k < j && t[k] == t[i as int],
            decreases i - j,
        {
            assert(t[j as int] == hs@[j as int]@ && t[i as int] == hs@[i as int]@);
            if crate::text::same_text(hs[j].as_str(), hs[i].as_str()) {
                seen = true;
            }
            assert(seen == exists|k: int| 0 <= k < j + 1 && t[k] == t[i as int]) by {
                if t[j as int] == t[i as int] {
                    assert(0 <= j < j + 1);
                }
            }
            j = j + 1;
        }
        proof {
            if seen {
                let k = choose|k: int| 0 <= k < j && t[k] == t[i as int];
                assert(t.subrange(0, i as int)[k] == t[i as int]);
            }
            if t.subrange(0, i as int).contains(t[i as int]) {
                let k = choose|k: int| 0 <= k < i && t.subrange(0, i as int)[k] == t[i as int];
                assert(t[k] == t[i as int]);
            }
        }
        flags.push(!seen);
        i = i + 1;
    }
    flags
}

/// A record in the columns that the flags keep, up to the header's width.
fn keep_cells(hs: &Vec<String>, flags: &Vec<bool>, rec: &Vec<String>) -> (r: Vec<String>)
    requires
        flags.len() == hs.len(),
        forall|i: int| 0 <= i < hs.len() ==> flags[i] == first_of_name(texts(hs@), i),
    ensures
        texts(r@) == kept_cells(texts(hs@), texts(rec@), hs.len() as nat),
{
    let mut out: Vec<String> = Vec::new();
    let mut i: usize = 0;
    while i < hs.len()
        invariant
            i <= hs.len(),
            flags.len() == hs.len(),
            forall|k: int| 0 <= k < hs.len() ==> flags[k] == first_of_name(texts(hs@), k),
            texts(out@) == kept_cells(texts(hs@), texts(rec@), i as nat),
        decreases hs.len() - i,
    {
        if flags[i] && i < rec.len() {
            let ghost prev = out@;
            out.push(rec[i].clone());
            assert(texts(out@) =~= texts(prev).push(texts(rec@)[i as int]));
        }
        i = i + 1;
    }
    out
}

/// Reads a CSV text: its first record is the header, the others are rows.
/// A header name that comes again loses its later columns, and each row
/// keeps only the header's columns, so no row is longer than the header.
pub fn parse_csv(content: &str) -> (r: Result<(Vec<String>, Vec<Vec<String>>), TableError>)
    ensures
        match r {
            Ok((hs, rows)) => csv_header_of(content@) is Some && csv_rows_of(content@) is Some
                && texts(hs@) == csv_headers(csv_header_of(content@)->0)
                && text_rows(rows@) == csv_table_rows(csv_header_of(content@)->0, csv_rows_of(content@)->0)
                && well_formed(texts(hs@), text_rows(rows@)),
            Err(e) => e is Parse && (csv_header_of(content@) is None || csv_rows_of(content@) is None),
        },
{
    let names = match csv_header(content) {
        Ok(h) => h,
        Err(msg) => {
            return Err(TableError::Parse(msg));
        },
    };
    let recs = match csv_rows(content) {
        Ok(rows) => rows,
        Err(msg) => {
            return Err(TableError::Parse(msg));
        },
    };
    let flags = first_flags(&names);
    let hs = keep_cells(&names, &flags, &names);
    let mut rows: Vec<Vec<String>> = Vec::new();
    let mut i: usize = 0;
    while i < recs.len()
        invariant
            i <= recs.len(),
            flags.len() == names.len(),
            forall|k: int| 0 <= k < names.len() ==> flags[k] == first_of_name(texts(names@), k),
            text_rows(rows@) == csv_table_rows(texts(names@), text_rows(recs@)).subrange(0, i as int),
        decreases recs.len() - i,
    {
        let row = keep_cells(&names, &flags, &recs[i]);
        let ghost prev = rows@;
        rows.push(row);
        assert(text_rows(rows@) =~= text_rows(prev).push(texts(row@)));
        assert(text_rows(rows@) =~= csv_table_rows(texts(names@), text_rows(recs@)).subrange(0, i + 1));
        i = i + 1;
    }
    assert(csv_table_rows(texts(names@), text_rows(recs@)).subrange(0, recs.len() as int)
        =~= csv_table_rows(texts(names@), text_rows(recs@)));
    proof {
        lemma_csv_well_formed(texts(names@), text_rows(recs@));
    }
    Ok((hs, rows))
}

} // verus!
