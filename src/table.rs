//! The table that the readers produce and the writers consume, and the
//! choice of reader or writer by file type.
use vstd::prelude::*;
use vstd::string::StringExecFns;
use crate::readers::{
    csv_header_of, csv_headers, csv_rows_of, csv_table_rows, json_table, well_formed, jsonl_objects, key_union, parse_csv, parse_json,
    parse_jsonl, rows_of, text_rows, texts,
};
use crate::text::same_text;
use crate::writers::{csv_records, csv_written, json_model, jsonl_text, write_csv, write_json, write_jsonl};
use crate::json::pretty_text;

verus! {

/// How a table goes back to JSON: as an array of objects, or as one object
/// whose entries are the `Key`/`Value` rows.
#[derive(PartialEq, Eq, Structural, Clone, Copy, Debug)]
pub enum JsonShape {
    Array,
    Object,
}

/// What can go wrong while loading or saving a table, with a message.
#[derive(Debug)]
pub enum TableError {
    /// The file cannot be read or written.
    Io(String),
    /// The text is not CSV or JSON of the expected form.
    Parse(String),
    /// The file type is none of `csv`, `json` and `jsonl`.
    UnsupportedFormat(String),
    /// The table cannot be turned into the text of its format.
    Serialize(String),
}

/// The formats that a table is read from and written to.
#[derive(PartialEq, Eq, Structural, Clone, Copy, Debug)]
pub enum FileFormat {
    Csv,
    Json,
    Jsonl,
}

/// A table as loaded from a file: headers, rows of text cells, the file's
/// type and path, and the JSON shape to write it back in (`array` or `object`).
pub struct TableData {
    pub headers: Vec<String>,
    pub rows: Vec<Vec<String>>,
    pub file_type: String,
    pub file_path: String,
    pub json_format: String,
}

/// A table to write: where, in which format and JSON shape, and its contents.
pub struct SaveRequest {
    pub file_path: String,
    pub file_type: String,
    pub headers: Vec<String>,
    pub rows: Vec<Vec<String>>,
    pub json_format: String,
}

/// The format that a type name stands for: `csv`, `json` or `jsonl`.
pub open spec fn format_of(name: Seq<char>) -> Option<FileFormat> {
    if name == seq!['c', 's', 'v'] {
        Some(FileFormat::Csv)
    } else if name == seq!['j', 's', 'o', 'n'] {
        Some(FileFormat::Json)
    } else if name == seq!['j', 's', 'o', 'n', 'l'] {
        Some(FileFormat::Jsonl)
    } else {
        None
    }
}

/// The name of a JSON shape.
pub open spec fn shape_text(shape: JsonShape) -> Seq<char> {
    match shape {
        JsonShape::Array => seq!['a', 'r', 'r', 'a', 'y'],
        JsonShape::Object => seq!['o', 'b', 'j', 'e', 'c', 't'],
    }
}

/// The shape that a name asks for: `object`, else an array.
pub open spec fn shape_of(name: Seq<char>) -> JsonShape {
    if name == shape_text(JsonShape::Object) {
        JsonShape::Object
    } else {
        JsonShape::Array
    }
}

/// The extension of the last component of a path, as std's `Path::extension`
/// finds it; empty where there is none.
pub uninterp spec fn extension_of(path: Seq<char>) -> Seq<char>;

/// The lower-case form of a text, as std's `str::to_lowercase` gives it.
pub uninterp spec fn lower_of(s: Seq<char>) -> Seq<char>;

/// The type of a file, by its extension in lower case.
pub open spec fn file_type_of(path: Seq<char>) -> Seq<char> {
    lower_of(extension_of(path))
}

/// The headers, rows and shape that a text in a format reads as; `None`
/// where the text cannot be read.
pub open spec fn read_table(format: FileFormat, content: Seq<char>) -> Option<
    (Seq<Seq<char>>, Seq<Seq<Seq<char>>>, JsonShape),
> {
    match format {
        FileFormat::Json => json_table(content),
        FileFormat::Jsonl => Some(
            (
                key_union(jsonl_objects(content)),
                rows_of(key_union(jsonl_objects(content)), jsonl_objects(content)),
                JsonShape::Array,
            ),
        ),
        FileFormat::Csv => if csv_header_of(content) is Some && csv_rows_of(content) is Some {
            Some(
                (
                    csv_headers(csv_header_of(content)->0),
                    csv_table_rows(csv_header_of(content)->0, csv_rows_of(content)->0),
                    JsonShape::Array,
                ),
            )
        } else {
            None
        },
    }
}

/// The text that a table is written as in a format; `None` where the
/// writer refuses it.
pub open spec fn written_table(
    format: FileFormat,
    headers: Seq<Seq<char>>,
    rows: Seq<Seq<Seq<char>>>,
    shape: JsonShape,
) -> Option<Seq<char>> {
    match format {
        FileFormat::Json => Some(pretty_text(json_model(headers, rows, shape))),
        FileFormat::Jsonl => Some(jsonl_text(headers, rows)),
        FileFormat::Csv => csv_written(csv_records(headers, rows)),
    }
}

/// Relies on std's `Path::extension`, read as UTF-8; empty where there is none.
#[verifier::external_body]
fn path_extension(path: &str) -> (r: String)
    ensures
        r@ == extension_of(path@),
{
    std::path::Path::new(path).extension().and_then(|e| e.to_str()).unwrap_or("").to_string()
}

/// Relies on std's `str::to_lowercase`.
#[verifier::external_body]
fn lowercase(s: &str) -> (r: String)
    ensures
        r@ == lower_of(s@),
{
    s.to_lowercase()
}

/// The format that a type name stands for.
pub fn format_from_name(name: &str) -> (r: Option<FileFormat>)
    ensures
        r == format_of(name@),
{
    proof {
        reveal_strlit("csv");
        reveal_strlit("json");
        reveal_strlit("jsonl");
        assert("csv"@ =~= seq!['c', 's', 'v']);
        assert("json"@ =~= seq!['j', 's', 'o', 'n']);
        assert("jsonl"@ =~= seq!['j', 's', 'o', 'n', 'l']);
    }
    if same_text(name, "csv") {
        Some(FileFormat::Csv)
    } else if same_text(name, "json") {
        Some(FileFormat::Json)
    } else if same_text(name, "jsonl") {
        Some(FileFormat::Jsonl)
    } else {
        None
    }
}

/// The shape that a name asks for.
pub fn shape_from_name(name: &str) -> (r: JsonShape)
    ensures
        r == shape_of(name@),
{
    proof {
        reveal_strlit("object");
        assert("object"@ =~= shape_text(JsonShape::Object));
    }
    if same_text(name, "object") {
        JsonShape::Object
    } else {
        JsonShape::Array
    }
}

/// The name of a shape.
pub fn shape_name(shape: JsonShape) -> (r: String)
    ensures
        r@ == shape_text(shape),
{
    proof {
        reveal_strlit("array");
        reveal_strlit("object");
        assert("array"@ =~= shape_text(JsonShape::Array));
        assert("object"@ =~= shape_text(JsonShape::Object));
    }
    match shape {
        JsonShape::Array => <String as StringExecFns>::from_str("array"),
        JsonShape::Object => <String as StringExecFns>::from_str("object"),
    }
}

/// The file type of a path: its extension, in lower case.
pub fn file_type(file_path: &str) -> (r: String)
    ensures
        r@ == file_type_of(file_path@),
{
    let ext = path_extension(file_path);
    lowercase(ext.as_str())
}

/// Builds the table that a file's text gives, choosing the reader by the
/// extension of its path.
pub fn load_table(file_path: String, content: &str) -> (r: Result<TableData, TableError>)
    ensures
        match r {
            Ok(t) => format_of(file_type_of(file_path@)) is Some && read_table(
                format_of(file_type_of(file_path@))->0,
                content@,
            ) == Some((texts(t.headers@), text_rows(t.rows@), shape_of(t.json_format@)))
                && t.json_format@ == shape_text(shape_of(t.json_format@))
                && well_formed(texts(t.headers@), text_rows(t.rows@))
                && t.file_type@ == file_type_of(file_path@) && t.file_path@ == file_path@,
            Err(TableError::UnsupportedFormat(m)) => format_of(file_type_of(file_path@)) is None
                && m@ == file_type_of(file_path@),
            Err(TableError::Parse(_)) => format_of(file_type_of(file_path@)) is Some && read_table(
                format_of(file_type_of(file_path@))->0,
                content@,
            ) is None,
            Err(_) => false,
        },
{
    let ext = file_type(file_path.as_str());
    let read = match format_from_name(ext.as_str()) {
        None => {
            return Err(TableError::UnsupportedFormat(ext));
        },
        Some(FileFormat::Json) => parse_json(content),
        Some(FileFormat::Jsonl) => {
            let (hs, rows) = parse_jsonl(content);
            Ok((hs, rows, JsonShape::Array))
        },
        Some(FileFormat::Csv) => match parse_csv(content) {
            Ok((hs, rows)) => Ok((hs, rows, JsonShape::Array)),
            Err(e) => Err(e),
        },
    };
    match read {
        Ok((headers, rows, shape)) => {
            let json_format = shape_name(shape);
            proof {
                crate::laws::lemma_read_well_formed(
                    format_of(file_type_of(file_path@))->0,
                    content@,
                );
                assert(shape_of(json_format@) == shape) by {
                    reveal_strlit("array");
                }
            }
            Ok(TableData { headers, rows, file_type: ext, file_path, json_format })
        },
        Err(e) => Err(e),
    }
}

/// The text of the file that a request asks for, in its format; the JSON
/// shape counts only for JSON.
pub fn render_request(request: &SaveRequest) -> (r: Result<String, TableError>)
    ensures
        match r {
            Ok(t) => format_of(request.file_type@) is Some && written_table(
                format_of(request.file_type@)->0,
                texts(request.headers@),
                text_rows(request.rows@),
                shape_of(request.json_format@),
            ) == Some(t@),
            Err(TableError::UnsupportedFormat(m)) => format_of(request.file_type@) is None && m@
                == request.file_type@,
            Err(TableError::Serialize(_)) => format_of(request.file_type@) is Some && written_table(
                format_of(request.file_type@)->0,
                texts(request.headers@),
                text_rows(request.rows@),
                shape_of(request.json_format@),
            ) is None,
            Err(_) => false,
        },
{
    match format_from_name(request.file_type.as_str()) {
        None => Err(TableError::UnsupportedFormat(request.file_type.clone())),
        Some(FileFormat::Json) => {
            let shape = shape_from_name(request.json_format.as_str());
            Ok(write_json(&request.headers, &request.rows, shape))
        },
        Some(FileFormat::Jsonl) => Ok(write_jsonl(&request.headers, &request.rows)),
        Some(FileFormat::Csv) => write_csv(&request.headers, &request.rows),
    }
}

/// The request that exports a table: the same headers and rows, under
/// another path and type, always as an array of objects.
pub fn export_request(request: SaveRequest, export_path: String, export_type: String) -> (r:
    SaveRequest)
    ensures
        r.file_path == export_path,
        r.file_type == export_type,
        r.headers == request.headers,
        r.rows == request.rows,
        r.json_format@ == shape_text(JsonShape::Array),
{
    SaveRequest {
        file_path: export_path,
        file_type: export_type,
        headers: request.headers,
        rows: request.rows,
        json_format: shape_name(JsonShape::Array),
    }
}

} // verus!
