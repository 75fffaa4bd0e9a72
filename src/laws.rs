//! What holds between the readers and the writers.
use vstd::prelude::*;
use crate::coerce::{all_digits, decoded, encoded, false_text, int_of, is_digit, true_text, unsigned_part};
use crate::json::{JsonModel, assoc_from, assoc_put, float_number, json_parse};
use crate::readers::{
    Entries, add_keys, cell_of, csv_header_of, csv_rows_of, json_table, key_text, key_union,
    line_objects, lookup, objects_in, pair_rows, row_of, rows_of, value_text,
};
use crate::table::{FileFormat, JsonShape, read_table, written_table};
use crate::readers::{csv_table_rows, first_of_name, kept_cells, lemma_csv_well_formed, well_formed};
use crate::text::{sanitized, trimmed};
use crate::writers::{cell_at, csv_records, csv_written, padded, json_model, pair_entries, row_entries};

verus! {

/// The keys of an object's entries, in order.
pub open spec fn keys_of(es: Entries) -> Seq<Seq<char>> {
    es.map_values(|e: (Seq<char>, JsonModel)| e.0)
}

/// An object whose values have each gone through a cell and back.
pub open spec fn through_cells(es: Entries) -> Entries {
    es.map_values(|e: (Seq<char>, JsonModel)| (e.0, decoded(encoded(e.1))))
}

/// Whether every value is an object whose keys are `ks`.
pub open spec fn all_objects_with_keys(items: Seq<JsonModel>, ks: Seq<Seq<char>>) -> bool {
    forall|i: int| 0 <= i < items.len() ==> (#[trigger] items[i] matches JsonModel::Object(es) && keys_of(es) == ks)
}

/// An array of objects, each with its values gone through a cell and back.
pub open spec fn array_through_cells(items: Seq<JsonModel>) -> JsonModel {
    JsonModel::Array(items.map_values(|m: JsonModel| match m {
        JsonModel::Object(es) => JsonModel::Object(through_cells(es)),
        _ => m,
    }))
}

proof fn lemma_assoc_unique(ps: Entries)
    requires
        keys_of(ps).no_duplicates(),
    ensures
        assoc_from(ps) == ps,
    decreases ps.len(),
{
    if ps.len() > 0 {
        let init = ps.drop_last();
        assert(keys_of(init) =~= keys_of(ps).drop_last());
        lemma_assoc_unique(init);
        assert forall|i: int| 0 <= i < init.len() implies init[i].0 != ps.last().0 by {
            assert(keys_of(ps)[i] == init[i].0);
            assert(keys_of(ps)[ps.len() - 1] == ps.last().0);
        }
        assert(assoc_put(init, ps.last().0, ps.last().1) == init.push((ps.last().0, ps.last().1)));
        assert(init.push(ps.last()) =~= ps);
    }
}

proof fn lemma_lookup_unique(es: Entries, i: int)
    requires
        keys_of(es).no_duplicates(),
        0 <= i < es.len(),
    ensures
        lookup(es, es[i].0) == Some(es[i].1),
    decreases es.len(),
{
    if i > 0 {
        let rest = es.drop_first();
        assert(keys_of(rest) =~= keys_of(es).drop_first());
        assert(keys_of(es)[0] != keys_of(es)[i]);
        assert(rest[i - 1] == es[i]);
        lemma_lookup_unique(rest, i - 1);
    }
}

proof fn lemma_add_keys_fresh(es: Entries)
    requires
        keys_of(es).no_duplicates(),
    ensures
        add_keys(Seq::empty(), es) == keys_of(es),
    decreases es.len(),
{
    if es.len() > 0 {
        let init = es.drop_last();
        assert(keys_of(init) =~= keys_of(es).drop_last());
        lemma_add_keys_fresh(init);
        assert(!keys_of(init).contains(es.last().0)) by {
            if keys_of(init).contains(es.last().0) {
                let j = choose|j: int| 0 <= j < keys_of(init).len() && keys_of(init)[j] == es.last().0;
                assert(keys_of(es)[j] == keys_of(es)[es.len() - 1]);
            }
        }
        assert(keys_of(init).push(es.last().0) =~= keys_of(es));
    }
}

proof fn lemma_add_keys_present(hs: Seq<Seq<char>>, es: Entries)
    requires
        forall|i: int| 0 <= i < es.len() ==> hs.contains(#[trigger] es[i].0),
    ensures
        add_keys(hs, es) == hs,
    decreases es.len(),
{
    if es.len() > 0 {
        lemma_add_keys_present(hs, es.drop_last());
        assert(hs.contains(es[es.len() - 1].0));
    }
}

proof fn lemma_objects_in_all(items: Seq<JsonModel>, ks: Seq<Seq<char>>)
    requires
        all_objects_with_keys(items, ks),
    ensures
        objects_in(items).len() == items.len(),
        forall|i: int| 0 <= i < items.len() ==> items[i] == JsonModel::Object(#[trigger] objects_in(items)[i]),
    decreases items.len(),
{
    if items.len() > 0 {
        let init = items.drop_last();
        assert forall|i: int| 0 <= i < init.len() implies (#[trigger] init[i] matches JsonModel::Object(es)
            && keys_of(es) == ks) by {
            assert(init[i] == items[i]);
        }
        lemma_objects_in_all(init, ks);
        assert(items[items.len() - 1] matches JsonModel::Object(_));
        assert forall|i: int| 0 <= i < items.len() implies items[i] == JsonModel::Object(
            #[trigger] objects_in(items)[i],
        ) by {
            if i < init.len() {
                assert(init[i] == items[i]);
            }
        }
    }
}

proof fn lemma_key_union_same(objs: Seq<Entries>, ks: Seq<Seq<char>>)
    requires
        objs.len() > 0,
        ks.no_duplicates(),
        forall|i: int| 0 <= i < objs.len() ==> keys_of(#[trigger] objs[i]) == ks,
    ensures
        key_union(objs) == ks,
    decreases objs.len(),
{
    let init = objs.drop_last();
    if init.len() == 0 {
        assert(objs[0] == objs.last());
        lemma_add_keys_fresh(objs.last());
        assert(key_union(init) == Seq::<Seq<char>>::empty());
    } else {
        assert forall|i: int| 0 <= i < init.len() implies keys_of(#[trigger] init[i]) == ks by {
            assert(init[i] == objs[i]);
        }
        lemma_key_union_same(init, ks);
        let es = objs.last();
        assert(keys_of(objs[objs.len() - 1]) == ks);
        assert forall|i: int| 0 <= i < es.len() implies ks.contains(#[trigger] es[i].0) by {
            assert(keys_of(es)[i] == es[i].0);
        }
        lemma_add_keys_present(ks, es);
    }
}

/// The row of an object whose keys are the headers, gone back to an object,
/// is the object with each value gone through a cell.
proof fn lemma_row_round_trip(es: Entries)
    requires
        keys_of(es).no_duplicates(),
    ensures
        assoc_from(row_entries(keys_of(es), row_of(keys_of(es), es))) == through_cells(es),
{
    let ks = keys_of(es);
    let row = row_of(ks, es);
    let ents = row_entries(ks, row);
    assert forall|i: int| 0 <= i < es.len() implies #[trigger] ents[i] == through_cells(es)[i] by {
        lemma_lookup_unique(es, i);
        assert(ks[i] == es[i].0);
        assert(cell_of(es, ks[i]) == encoded(es[i].1));
        assert(cell_at(row, i) == row[i]);
    }
    assert(ents =~= through_cells(es));
    assert(keys_of(through_cells(es)) =~= ks);
    lemma_assoc_unique(through_cells(es));
}

/// Reading a JSON array of objects that all have the same keys, each key
/// once, and writing the table back as an array gives the same array, each
/// value gone through a cell and back: keys, their order and the order of
/// the objects are kept.
pub proof fn lemma_json_array_round_trip(s: Seq<char>, items: Seq<JsonModel>, ks: Seq<Seq<char>>)
    requires
        json_parse(sanitized(s)) == Some(JsonModel::Array(items)),
        all_objects_with_keys(items, ks),
        ks.no_duplicates(),
    ensures
        json_table(s) matches Some((hs, rows, shape)) && shape == JsonShape::Array
            && rows.len() == items.len()
            && json_model(hs, rows, JsonShape::Array) == array_through_cells(items),
{
    lemma_objects_in_all(items, ks);
    let objs = objects_in(items);
    let hs = key_union(objs);
    let rows = rows_of(hs, objs);
    let out = json_model(hs, rows, JsonShape::Array);
    let want = array_through_cells(items);
    if items.len() > 0 {
        assert forall|i: int| 0 <= i < objs.len() implies keys_of(#[trigger] objs[i]) == ks by {
            assert(items[i] == JsonModel::Object(objs[i]));
        }
        lemma_key_union_same(objs, ks);
    }
    assert forall|i: int| 0 <= i < items.len() implies #[trigger] out->Array_0[i] == want->Array_0[i] by {
        assert(items[i] == JsonModel::Object(objs[i]));
        assert(keys_of(objs[i]) == ks);
        lemma_row_round_trip(objs[i]);
    }
    assert(out->Array_0 =~= want->Array_0);
}

proof fn lemma_pair_entries(es: Entries)
    requires
        forall|i: int| 0 <= i < es.len() ==> (#[trigger] es[i].0).len() > 0,
    ensures
        pair_entries(pair_rows(es)) == through_cells(es),
    decreases es.len(),
{
    if es.len() > 0 {
        let init = es.drop_last();
        assert(pair_rows(init) =~= pair_rows(es).drop_last());
        assert forall|i: int| 0 <= i < init.len() implies (#[trigger] init[i].0).len() > 0 by {
            assert(init[i] == es[i]);
        }
        lemma_pair_entries(init);
        assert(es[es.len() - 1].0.len() > 0);
        assert(through_cells(init).push((es.last().0, decoded(encoded(es.last().1)))) =~= through_cells(es));
    }
}

/// Reading a JSON object gives `Key` and `Value` headers and one row per
/// entry, in order; writing that table back as an object gives the same
/// entries, each value gone through a cell and back. Keys are taken to be
/// distinct and not empty: a row with an empty key is not written.
pub proof fn lemma_json_object_round_trip(s: Seq<char>, es: Entries)
    requires
        json_parse(sanitized(s)) == Some(JsonModel::Object(es)),
        keys_of(es).no_duplicates(),
        forall|i: int| 0 <= i < es.len() ==> (#[trigger] es[i].0).len() > 0,
    ensures
        json_table(s) matches Some((hs, rows, shape)) && shape == JsonShape::Object
            && hs == seq![key_text(), value_text()] && rows.len() == es.len()
            && (forall|i: int| 0 <= i < es.len() ==> #[trigger] rows[i] == seq![es[i].0, encoded(es[i].1)])
            && json_model(hs, rows, JsonShape::Object) == JsonModel::Object(through_cells(es)),
{
    lemma_pair_entries(es);
    assert(keys_of(through_cells(es)) =~= keys_of(es));
    lemma_assoc_unique(through_cells(es));
}

/// An empty cell is null, and null is shown as an empty cell.
pub proof fn lemma_null_round_trip()
    ensures
        decoded(encoded(JsonModel::Null)) == JsonModel::Null,
{
}

/// A string cell that reads neither as JSON, nor as a boolean, an integer or
/// a double comes back as the same string.
pub proof fn lemma_plain_string_round_trip(s: Seq<char>)
    requires
        s.len() > 0,
        json_parse(s) is None,
        s != true_text(),
        s != false_text(),
        int_of(s) is None,
        float_number(s) is None,
    ensures
        decoded(encoded(JsonModel::Str(s))) == JsonModel::Str(s),
{
}

/// A cell whose text is an integer but not JSON, such as one with leading
/// zeros, comes back as that number and not as the string.
pub proof fn lemma_integer_text_becomes_number(s: Seq<char>)
    requires
        s.len() > 0,
        json_parse(s) is None,
        int_of(s) is Some,
    ensures
        decoded(encoded(JsonModel::Str(s))) is Number,
{
    let ds = unsigned_part(s);
    assert(all_digits(ds));
    assert(s != true_text()) by {
        if s == true_text() {
            assert(s[0] == 't');
            assert(ds == s);
            assert(is_digit(ds[0]));
        }
    }
    assert(s != false_text()) by {
        if s == false_text() {
            assert(s[0] == 'f');
            assert(ds == s);
            assert(is_digit(ds[0]));
        }
    }
}

/// A JSON Lines line that is blank, or that is not a JSON object, adds
/// nothing; a line that is an object adds exactly that object.
pub proof fn lemma_jsonl_line(lines: Seq<Seq<char>>, line: Seq<char>)
    ensures
        trimmed(line).len() > 0 ==> (json_parse(trimmed(line)) matches Some(JsonModel::Object(es))
            ==> line_objects(lines.push(line)) == line_objects(lines).push(es)),
        !(trimmed(line).len() > 0 && json_parse(trimmed(line)) matches Some(JsonModel::Object(_)))
            ==> line_objects(lines.push(line)) == line_objects(lines),
{
    assert(lines.push(line).drop_last() =~= lines);
}

/// A JSON Lines text gives one row per object line, each as long as the header list.
pub proof fn lemma_jsonl_rows(objs: Seq<Entries>)
    ensures
        rows_of(key_union(objs), objs).len() == objs.len(),
        forall|i: int| 0 <= i < objs.len() ==> (#[trigger] rows_of(key_union(objs), objs)[i]).len()
            == key_union(objs).len(),
{
}

proof fn lemma_kept_all(hs: Seq<Seq<char>>, rec: Seq<Seq<char>>, n: nat)
    requires
        hs.no_duplicates(),
        n <= hs.len(),
        n <= rec.len(),
    ensures
        kept_cells(hs, rec, n) == rec.take(n as int),
    decreases n,
{
    if n > 0 {
        lemma_kept_all(hs, rec, (n - 1) as nat);
        assert(first_of_name(hs, n - 1)) by {
            let m: int = n - 1;
            if hs.subrange(0, m).contains(hs[m]) {
                let j = choose|j: int| 0 <= j < m && #[trigger] hs.subrange(0, m)[j] == hs[m];
                assert(hs[j] == hs[m]);
            }
        }
        assert(rec.take(n - 1).push(rec[n - 1]) =~= rec.take(n as int));
    }
}

/// A CSV text whose header names are distinct and whose records are all as
/// wide as the header is written back from the table it reads as with the
/// very records that the csv crate read: the header, then each record,
/// unchanged.
pub proof fn lemma_csv_records_kept(s: Seq<char>, shape: JsonShape)
    requires
        csv_header_of(s) matches Some(hs) && hs.no_duplicates(),
        csv_rows_of(s) matches Some(recs) && forall|i: int| 0 <= i < recs.len() ==> (#[trigger] recs[i]).len()
            == csv_header_of(s)->0.len(),
    ensures
        read_table(FileFormat::Csv, s) matches Some((hs, rows, _)) && written_table(
            FileFormat::Csv,
            hs,
            rows,
            shape,
        ) == csv_written(seq![csv_header_of(s)->0] + csv_rows_of(s)->0),
{
    let hs = csv_header_of(s)->0;
    let recs = csv_rows_of(s)->0;
    lemma_kept_all(hs, hs, hs.len());
    assert(hs.take(hs.len() as int) =~= hs);
    let rows = csv_table_rows(hs, recs);
    assert(csv_records(hs, rows) =~= seq![hs] + recs) by {
        assert forall|i: int| 0 <= i < recs.len() implies #[trigger] padded(rows[i], hs.len()) == recs[i] by {
            lemma_kept_all(hs, recs[i], hs.len());
            assert(recs[i].take(hs.len() as int) =~= recs[i]);
            assert(padded(rows[i], hs.len()) =~= recs[i]);
        }
        assert forall|i: int| 0 <= i < recs.len() + 1 implies #[trigger] csv_records(hs, rows)[i]
            == (seq![hs] + recs)[i] by {
            if i > 0 {
                assert(csv_records(hs, rows)[i] == padded(rows[i - 1], hs.len()));
            }
        }
    }
}

proof fn lemma_add_keys_distinct(hs: Seq<Seq<char>>, es: Entries)
    requires
        hs.no_duplicates(),
    ensures
        add_keys(hs, es).no_duplicates(),
    decreases es.len(),
{
    if es.len() > 0 {
        lemma_add_keys_distinct(hs, es.drop_last());
    }
}

proof fn lemma_key_union_distinct(objs: Seq<Entries>)
    ensures
        key_union(objs).no_duplicates(),
    decreases objs.len(),
{
    if objs.len() > 0 {
        lemma_key_union_distinct(objs.drop_last());
        lemma_add_keys_distinct(key_union(objs.drop_last()), objs.last());
    }
}

proof fn lemma_object_rows_well_formed(objs: Seq<Entries>)
    ensures
        well_formed(key_union(objs), rows_of(key_union(objs), objs)),
{
    lemma_key_union_distinct(objs);
}

/// Every table that a reader gives has distinct headers and no row with
/// more cells than there are headers.
pub proof fn lemma_read_well_formed(format: FileFormat, content: Seq<char>)
    ensures
        read_table(format, content) matches Some((hs, rows, _)) ==> well_formed(hs, rows),
{
    match format {
        FileFormat::Json => {
            match json_parse(sanitized(content)) {
                Some(JsonModel::Array(items)) => lemma_object_rows_well_formed(objects_in(items)),
                Some(JsonModel::Object(es)) => {
                    let kv = seq![key_text(), value_text()];
                    assert(kv[0][0] != kv[1][0]);
                },
                _ => {},
            }
        },
        FileFormat::Jsonl => lemma_object_rows_well_formed(crate::readers::jsonl_objects(content)),
        FileFormat::Csv => {
            if csv_header_of(content) is Some && csv_rows_of(content) is Some {
                lemma_csv_well_formed(csv_header_of(content)->0, csv_rows_of(content)->0);
            }
        },
    }
}

proof fn lemma_lookup_present(es: Entries, k: Seq<char>)
    requires
        keys_of(es).contains(k),
    ensures
        lookup(es, k) is Some,
    decreases es.len(),
{
    if es[0].0 != k {
        let j = choose|j: int| 0 <= j < keys_of(es).len() && keys_of(es)[j] == k;
        assert(keys_of(es.drop_first())[j - 1] == k);
        lemma_lookup_present(es.drop_first(), k);
    }
}

/// Whether every value is an object with the keys of `ks`, each once, in any order.
pub open spec fn all_objects_with_key_set(items: Seq<JsonModel>, ks: Seq<Seq<char>>) -> bool {
    forall|i: int| 0 <= i < items.len() ==> (#[trigger] items[i] matches JsonModel::Object(es)
        && keys_of(es).no_duplicates() && keys_of(es).to_set() == ks.to_set())
}

/// The object that an object becomes through a table with headers `ks`:
/// its value under each header, in the headers' order, gone through a cell.
pub open spec fn reordered_through_cells(es: Entries, ks: Seq<Seq<char>>) -> Entries {
    Seq::new(ks.len(), |j: int| (ks[j], decoded(encoded(lookup(es, ks[j])->0))))
}

/// Reading a JSON array of objects that all have one set of keys, each key
/// once, in any order, and writing the table back as an array gives, for
/// each object in turn, an object with the same keys, each with its value
/// gone through a cell and back. The keys come in the first object's order.
pub proof fn lemma_json_array_key_set_round_trip(s: Seq<char>, items: Seq<JsonModel>, es0: Entries)
    requires
        json_parse(sanitized(s)) == Some(JsonModel::Array(items)),
        items.len() > 0,
        items[0] == JsonModel::Object(es0),
        all_objects_with_key_set(items, keys_of(es0)),
    ensures
        json_table(s) == Some(
            (keys_of(es0), rows_of(keys_of(es0), objects_in(items)), JsonShape::Array),
        ),
        objects_in(items).len() == items.len(),
        forall|i: int| 0 <= i < items.len() ==> {
            &&& items[i] == JsonModel::Object(#[trigger] objects_in(items)[i])
            &&& forall|j: int| 0 <= j < es0.len() ==> lookup(objects_in(items)[i], #[trigger] keys_of(es0)[j]) is Some
            &&& json_model(keys_of(es0), rows_of(keys_of(es0), objects_in(items)), JsonShape::Array)->Array_0[i]
                == JsonModel::Object(reordered_through_cells(objects_in(items)[i], keys_of(es0)))
        },
{
    let ks = keys_of(es0);
    assert(items[0] matches JsonModel::Object(_) && keys_of(es0).no_duplicates());
    // every value is an object, so none is left out
    assert forall|i: int| 0 <= i < items.len() implies (#[trigger] items[i] matches JsonModel::Object(es)) by {
        assert(all_objects_with_key_set(items, ks));
    }
    lemma_objects_in_objects(items);
    let objs = objects_in(items);
    lemma_key_union_set(objs, ks);
    let hs = key_union(objs);
    assert forall|i: int| 0 <= i < items.len() implies {
        &&& items[i] == JsonModel::Object(#[trigger] objects_in(items)[i])
        &&& forall|j: int| 0 <= j < es0.len() ==> lookup(objects_in(items)[i], #[trigger] keys_of(es0)[j]) is Some
        &&& json_model(keys_of(es0), rows_of(keys_of(es0), objects_in(items)), JsonShape::Array)->Array_0[i]
            == JsonModel::Object(reordered_through_cells(objects_in(items)[i], keys_of(es0)))
    } by {
        let es = objs[i];
        assert(items[i] == JsonModel::Object(es));
        assert(keys_of(es).to_set() == ks.to_set());
        assert forall|j: int| 0 <= j < hs.len() implies lookup(es, #[trigger] hs[j]) is Some by {
            assert(ks.to_set().contains(ks[j]));
            assert(keys_of(es).to_set().contains(ks[j]));
            lemma_lookup_present(es, ks[j]);
        }
        let row = row_of(hs, es);
        let ents = row_entries(hs, row);
        assert(ents =~= reordered_through_cells(es, hs)) by {
            assert forall|j: int| 0 <= j < hs.len() implies #[trigger] ents[j] == reordered_through_cells(es, hs)[j] by {
                assert(cell_at(row, j) == row[j]);
            }
        }
        assert(keys_of(ents) =~= ks);
        lemma_assoc_unique(ents);
    }
}

proof fn lemma_objects_in_objects(items: Seq<JsonModel>)
    requires
        forall|i: int| 0 <= i < items.len() ==> (#[trigger] items[i] matches JsonModel::Object(_)),
    ensures
        objects_in(items).len() == items.len(),
        forall|i: int| 0 <= i < items.len() ==> items[i] == JsonModel::Object(#[trigger] objects_in(items)[i]),
    decreases items.len(),
{
    if items.len() > 0 {
        let init = items.drop_last();
        assert forall|i: int| 0 <= i < init.len() implies (#[trigger] init[i] matches JsonModel::Object(_)) by {
            assert(init[i] == items[i]);
        }
        lemma_objects_in_objects(init);
        assert(items[items.len() - 1] matches JsonModel::Object(_));
        assert forall|i: int| 0 <= i < items.len() implies items[i] == JsonModel::Object(
            #[trigger] objects_in(items)[i],
        ) by {
            if i < init.len() {
                assert(init[i] == items[i]);
            }
        }
    }
}

proof fn lemma_key_union_set(objs: Seq<Entries>, ks: Seq<Seq<char>>)
    requires
        objs.len() > 0,
        keys_of(objs[0]) == ks,
        ks.no_duplicates(),
        forall|i: int| 0 <= i < objs.len() ==> (#[trigger] keys_of(objs[i])).to_set() == ks.to_set(),
    ensures
        key_union(objs) == ks,
    decreases objs.len(),
{
    let init = objs.drop_last();
    if init.len() == 0 {
        assert(objs[0] == objs.last());
        lemma_add_keys_fresh(objs.last());
        assert(key_union(init) == Seq::<Seq<char>>::empty());
    } else {
        assert forall|i: int| 0 <= i < init.len() implies (#[trigger] keys_of(init[i])).to_set() == ks.to_set() by {
            assert(init[i] == objs[i]);
        }
        assert(init[0] == objs[0]);
        lemma_key_union_set(init, ks);
        let es = objs.last();
        assert(keys_of(objs[objs.len() - 1]).to_set() == ks.to_set());
        assert forall|i: int| 0 <= i < es.len() implies ks.contains(#[trigger] es[i].0) by {
            assert(keys_of(es)[i] == es[i].0);
            assert(keys_of(es).to_set().contains(es[i].0));
        }
        lemma_add_keys_present(ks, es);
    }
}

/// Whether a JSON Lines line gives no row: it is blank, or not a JSON object.
pub open spec fn skipped_line(line: Seq<char>) -> bool {
    !(trimmed(line).len() > 0 && json_parse(trimmed(line)) matches Some(JsonModel::Object(_)))
}

proof fn lemma_line_objects_concat(a: Seq<Seq<char>>, b: Seq<Seq<char>>)
    ensures
        line_objects(a + b) == line_objects(a) + line_objects(b),
    decreases b.len(),
{
    if b.len() == 0 {
        assert(a + b =~= a);
        assert(line_objects(b) == Seq::<Entries>::empty());
        assert(line_objects(a) + line_objects(b) =~= line_objects(a));
    } else {
        lemma_line_objects_concat(a, b.drop_last());
        assert((a + b).drop_last() =~= a + b.drop_last());
        assert((a + b).last() == b.last());
        let before = line_objects(a) + line_objects(b.drop_last());
        if skipped_line(b.last()) {
            assert(line_objects(a + b) == before);
            assert(line_objects(b) == line_objects(b.drop_last()));
        } else {
            let t = trimmed(b.last());
            let es = json_parse(t)->0->Object_0;
            assert(line_objects(a + b) == before.push(es));
            assert(line_objects(b) == line_objects(b.drop_last()).push(es));
            assert(before.push(es) =~= line_objects(a) + line_objects(b.drop_last()).push(es));
        }
    }
}

proof fn lemma_skipped_lines(junk: Seq<Seq<char>>)
    requires
        forall|i: int| 0 <= i < junk.len() ==> skipped_line(#[trigger] junk[i]),
    ensures
        line_objects(junk) == Seq::<Entries>::empty(),
    decreases junk.len(),
{
    if junk.len() > 0 {
        let init = junk.drop_last();
        assert forall|i: int| 0 <= i < init.len() implies skipped_line(#[trigger] init[i]) by {
            assert(init[i] == junk[i]);
        }
        lemma_skipped_lines(init);
        assert(skipped_line(junk[junk.len() - 1]));
    }
}

/// Putting blank lines, or lines that are not a JSON object, between the
/// lines of a JSON Lines text changes neither its headers nor its rows.
pub proof fn lemma_jsonl_insert_skipped(a: Seq<Seq<char>>, junk: Seq<Seq<char>>, b: Seq<Seq<char>>)
    requires
        forall|i: int| 0 <= i < junk.len() ==> skipped_line(#[trigger] junk[i]),
    ensures
        line_objects(a + junk + b) == line_objects(a + b),
        key_union(line_objects(a + junk + b)) == key_union(line_objects(a + b)),
        rows_of(key_union(line_objects(a + junk + b)), line_objects(a + junk + b)) == rows_of(
            key_union(line_objects(a + b)),
            line_objects(a + b),
        ),
{
    lemma_line_objects_concat(a + junk, b);
    lemma_line_objects_concat(a, junk);
    lemma_line_objects_concat(a, b);
    lemma_skipped_lines(junk);
    assert(line_objects(a) + Seq::<Entries>::empty() =~= line_objects(a));
}

} // verus!
