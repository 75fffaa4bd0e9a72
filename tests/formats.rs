use table_formats::coerce::{string_to_value, value_to_string};
use table_formats::readers::{parse_csv, parse_json, parse_jsonl};
use table_formats::text::{lines_of, trim};
use table_formats::writers::{write_csv, write_json, write_jsonl};
use table_formats::{
    export_request, file_type, format_from_name, load_table, render_request, sanitize_json_string,
    FileFormat, JsonShape, SaveRequest, TableError,
};

fn strings(v: &[&str]) -> Vec<String> {
    v.iter().map(|s| s.to_string()).collect()
}

fn json(text: &str) -> serde_json::Value {
    serde_json::from_str(text).unwrap()
}

fn request(path: &str, kind: &str, headers: &[&str], rows: &[&[&str]], shape: &str) -> SaveRequest {
    SaveRequest {
        file_path: path.to_string(),
        file_type: kind.to_string(),
        headers: strings(headers),
        rows: rows.iter().map(|r| strings(r)).collect(),
        json_format: shape.to_string(),
    }
}

#[test]
fn csv_scenario_loads_and_saves_as_json() {
    let t = load_table("people.csv".to_string(), "name,age\nAlice,30\nBob,\n").unwrap();
    assert_eq!(t.headers, strings(&["name", "age"]));
    assert_eq!(t.rows, vec![strings(&["Alice", "30"]), strings(&["Bob", ""])]);
    assert_eq!(t.json_format, "array");
    assert_eq!(t.file_type, "csv");
    assert_eq!(t.file_path, "people.csv");
    let req = SaveRequest {
        file_path: "people.json".to_string(),
        file_type: "json".to_string(),
        headers: t.headers,
        rows: t.rows,
        json_format: t.json_format,
    };
    let out = render_request(&req).unwrap();
    assert_eq!(
        out,
        "[\n  {\n    \"name\": \"Alice\",\n    \"age\": 30\n  },\n  {\n    \"name\": \"Bob\",\n    \"age\": null\n  }\n]"
    );
    assert_eq!(json(&out), json(r#"[{"name":"Alice","age":30},{"name":"Bob","age":null}]"#));
}

#[test]
fn json_object_scenario_round_trips() {
    let t = load_table("conf.json".to_string(), r#"{"a":1,"b":"x"}"#).unwrap();
    assert_eq!(t.headers, strings(&["Key", "Value"]));
    assert_eq!(t.rows, vec![strings(&["a", "1"]), strings(&["b", "x"])]);
    assert_eq!(t.json_format, "object");
    let out = write_json(&t.headers, &t.rows, JsonShape::Object);
    assert_eq!(out, "{\n  \"a\": 1,\n  \"b\": \"x\"\n}");
}

#[test]
fn unsupported_extension_is_named() {
    match load_table("notes.txt".to_string(), "hello") {
        Err(TableError::UnsupportedFormat(ext)) => assert_eq!(ext, "txt"),
        other => panic!("unexpected: {:?}", other.map(|t| t.headers)),
    }
}

#[test]
fn extension_is_lowercased() {
    assert_eq!(file_type("/data/Report.JSON"), "json");
    assert_eq!(file_type("/data/archive.tar.CSV"), "csv");
    assert_eq!(file_type("/data/noext"), "");
    let t = load_table("LINES.JsonL".to_string(), "{\"k\":1}\n").unwrap();
    assert_eq!(t.file_type, "jsonl");
    assert_eq!(t.rows, vec![strings(&["1"])]);
}

#[test]
fn csv_round_trip_is_exact() {
    let text = "id,name,note\n1,Ann,\"a, b\"\n2,\"Bo \"\"B\"\"\",x\n";
    let (h, rows) = parse_csv(text).unwrap();
    assert_eq!(h, strings(&["id", "name", "note"]));
    assert_eq!(rows[0], strings(&["1", "Ann", "a, b"]));
    assert_eq!(rows[1], strings(&["2", "Bo \"B\"", "x"]));
    assert_eq!(write_csv(&h, &rows).unwrap(), text);
}

#[test]
fn csv_rows_are_cut_to_the_header() {
    let (h, rows) = parse_csv("a,b\n1,2,3\n").unwrap();
    assert_eq!(h, strings(&["a", "b"]));
    assert_eq!(rows, vec![strings(&["1", "2"])]);
}

#[test]
fn csv_short_rows_are_read_and_padded_on_writing() {
    let (h, rows) = parse_csv("a,b\n1\n2,3,4\n").unwrap();
    assert_eq!(h, strings(&["a", "b"]));
    assert_eq!(rows, vec![strings(&["1"]), strings(&["2", "3"])]);
    assert_eq!(write_csv(&h, &rows).unwrap(), "a,b\n1,\n2,3\n");
}

#[test]
fn csv_repeated_header_keeps_first_column() {
    let (h, rows) = parse_csv("a,b,a\n1,2,3\n4\n").unwrap();
    assert_eq!(h, strings(&["a", "b"]));
    assert_eq!(rows, vec![strings(&["1", "2"]), strings(&["4"])]);
}

#[test]
fn csv_longer_row_than_header_is_refused_on_writing() {
    let h = strings(&["a"]);
    let rows = vec![strings(&["1", "2"])];
    assert!(matches!(write_csv(&h, &rows), Err(TableError::Serialize(_))));
}

#[test]
fn csv_empty_text_gives_empty_table() {
    let (h, rows) = parse_csv("").unwrap();
    assert!(h.is_empty());
    assert!(rows.is_empty());
}

#[test]
fn json_array_round_trip_keeps_keys_and_order() {
    let text = r#"[{"id":1,"name":"Ann","ok":true},{"id":2,"name":"Bob","ok":false}]"#;
    let (h, rows, shape) = parse_json(text).unwrap();
    assert_eq!(shape, JsonShape::Array);
    assert_eq!(h, strings(&["id", "name", "ok"]));
    assert_eq!(rows[1], strings(&["2", "Bob", "false"]));
    let out = write_json(&h, &rows, JsonShape::Array);
    assert_eq!(json(&out), json(text));
    let keys: Vec<String> = json(&out)[0].as_object().unwrap().keys().cloned().collect();
    assert_eq!(keys, strings(&["id", "name", "ok"]));
}

#[test]
fn json_array_union_of_keys_in_first_seen_order() {
    let text = r#"[{"b":1},7,{"a":2,"b":3},{"c":[1,2],"d":{"x":null}}]"#;
    let (h, rows, shape) = parse_json(text).unwrap();
    assert_eq!(shape, JsonShape::Array);
    assert_eq!(h, strings(&["b", "a", "c", "d"]));
    assert_eq!(rows.len(), 3);
    assert_eq!(rows[0], strings(&["1", "", "", ""]));
    assert_eq!(rows[1], strings(&["3", "2", "", ""]));
    assert_eq!(rows[2], strings(&["", "", "[1,2]", "{\"x\":null}"]));
}

#[test]
fn json_empty_array_gives_empty_table() {
    let (h, rows, shape) = parse_json("[]").unwrap();
    assert!(h.is_empty());
    assert!(rows.is_empty());
    assert_eq!(shape, JsonShape::Array);
    assert_eq!(write_json(&h, &rows, JsonShape::Array), "[]");
}

#[test]
fn json_scalar_root_is_refused() {
    match parse_json("42") {
        Err(TableError::Parse(m)) => assert_eq!(m, "JSON must be an object or array"),
        other => panic!("unexpected: {:?}", other.map(|t| t.0)),
    }
}

#[test]
fn json_malformed_is_a_parse_error() {
    match parse_json("{\"a\":") {
        Err(TableError::Parse(m)) => assert!(m.starts_with("Failed to parse JSON: ")),
        other => panic!("unexpected: {:?}", other.map(|t| t.0)),
    }
}

#[test]
fn json_control_characters_are_tolerated() {
    let (h, rows, _) = parse_json("[{\"a\":\"x\u{1}y\"}]").unwrap();
    assert_eq!(h, strings(&["a"]));
    assert_eq!(rows, vec![strings(&["x y"])]);
}

#[test]
fn object_shape_needs_key_value_headers() {
    let h = strings(&["k", "v"]);
    let rows = vec![strings(&["a", "1"])];
    let out = write_json(&h, &rows, JsonShape::Object);
    assert_eq!(json(&out), json(r#"[{"k":"a","v":1}]"#));
}

#[test]
fn object_shape_skips_empty_keys() {
    let h = strings(&["Key", "Value"]);
    let rows = vec![strings(&["a", "1"]), strings(&["", "2"]), strings(&["c"])];
    let out = write_json(&h, &rows, JsonShape::Object);
    assert_eq!(out, "{\n  \"a\": 1,\n  \"c\": null\n}");
}

#[test]
fn jsonl_skips_blank_and_invalid_lines() {
    let text = "{\"a\":1}\n\n  not json\n[1,2]\n  {\"b\":\"x\",\"a\":2}  \r\n";
    let (h, rows) = parse_jsonl(text);
    assert_eq!(h, strings(&["a", "b"]));
    assert_eq!(rows, vec![strings(&["1", ""]), strings(&["2", "x"])]);
}

#[test]
fn jsonl_writer_one_compact_object_per_line() {
    let h = strings(&["a", "b"]);
    let rows = vec![strings(&["1", "x"]), strings(&["true"])];
    assert_eq!(write_jsonl(&h, &rows), "{\"a\":1,\"b\":\"x\"}\n{\"a\":true,\"b\":null}\n");
    assert_eq!(write_jsonl(&h, &Vec::new()), "");
}

#[test]
fn coercion_round_trips() {
    for text in ["null", "true", "false", "42", "-7", "2.5", "[1,2]", "{\"a\":1}"] {
        let v = json(text);
        assert_eq!(string_to_value(&value_to_string(&v)), v);
    }
    let s = serde_json::Value::String("hello world".to_string());
    assert_eq!(string_to_value(&value_to_string(&s)), s);
    assert_eq!(value_to_string(&serde_json::Value::Null), "");
    assert_eq!(string_to_value(""), serde_json::Value::Null);
}

#[test]
fn digit_strings_become_numbers() {
    let s = serde_json::Value::String("007".to_string());
    assert_eq!(value_to_string(&s), "007");
    assert_eq!(string_to_value("007"), json("7"));
    assert_eq!(string_to_value("+5"), json("5"));
    assert_eq!(string_to_value(".5"), json("0.5"));
    assert_eq!(string_to_value("inf"), serde_json::Value::String("inf".to_string()));
    assert_eq!(string_to_value("\"q\""), serde_json::Value::String("q".to_string()));
}

#[test]
fn sanitize_replaces_stray_controls() {
    assert_eq!(sanitize_json_string("a\u{0}b\tc\nd\re\u{7f}f\u{85}"), "a b\tc\nd\re f ");
    assert_eq!(sanitize_json_string(""), "");
}

#[test]
fn trim_and_lines() {
    let cs: Vec<char> = " \t ab c\u{3000}\r".chars().collect();
    assert_eq!(trim(&cs).into_iter().collect::<String>(), "ab c");
    let cs: Vec<char> = "x\n\ny".chars().collect();
    let ls: Vec<String> = lines_of(&cs).into_iter().map(|l| l.into_iter().collect()).collect();
    assert_eq!(ls, strings(&["x", "", "y"]));
}

#[test]
fn format_names() {
    assert_eq!(format_from_name("csv"), Some(FileFormat::Csv));
    assert_eq!(format_from_name("json"), Some(FileFormat::Json));
    assert_eq!(format_from_name("jsonl"), Some(FileFormat::Jsonl));
    assert_eq!(format_from_name("JSON"), None);
}

#[test]
fn save_unsupported_type() {
    let req = request("out.xml", "xml", &["a"], &[&["1"]], "array");
    match render_request(&req) {
        Err(TableError::UnsupportedFormat(m)) => assert_eq!(m, "xml"),
        other => panic!("unexpected: {:?}", other),
    }
}

#[test]
fn export_forces_array_shape() {
    let req = request("kv.json", "json", &["Key", "Value"], &[&["a", "1"]], "object");
    let exported = export_request(req, "kv.jsonl".to_string(), "jsonl".to_string());
    assert_eq!(exported.file_path, "kv.jsonl");
    assert_eq!(exported.file_type, "jsonl");
    assert_eq!(exported.json_format, "array");
    assert_eq!(render_request(&exported).unwrap(), "{\"Key\":\"a\",\"Value\":1}\n");
    let again = export_request(exported, "kv2.json".to_string(), "json".to_string());
    assert_eq!(json(&render_request(&again).unwrap()), json(r#"[{"Key":"a","Value":1}]"#));
}

#[test]
fn save_csv_request() {
    let req = request("t.csv", "csv", &["a", "b"], &[&["1", "x,y"]], "array");
    assert_eq!(render_request(&req).unwrap(), "a,b\n1,\"x,y\"\n");
}

#[test]
fn integer_cells_with_sign_or_leading_zeros() {
    assert_eq!(string_to_value("-0009"), json("-9"));
    assert_eq!(string_to_value("+9223372036854775807"), json("9223372036854775807"));
    assert_eq!(string_to_value("-09223372036854775808"), json("-9223372036854775808"));
    assert_eq!(string_to_value("+9223372036854775808"), json("9223372036854775808.0"));
    assert_eq!(string_to_value("+"), serde_json::Value::String("+".to_string()));
    assert_eq!(string_to_value("12a"), serde_json::Value::String("12a".to_string()));
}

#[test]
fn json_objects_with_one_key_set_in_any_order() {
    let text = r#"[{"a":1,"b":"x"},{"b":"y","a":2}]"#;
    let (h, rows, _) = parse_json(text).unwrap();
    assert_eq!(h, strings(&["a", "b"]));
    assert_eq!(rows, vec![strings(&["1", "x"]), strings(&["2", "y"])]);
    assert_eq!(json(&write_json(&h, &rows, JsonShape::Array)), json(text));
}

#[test]
fn load_table_csv_keeps_invariants() {
    let t = load_table("d.csv".to_string(), "x,x,y\n1,2,3,4\n").unwrap();
    assert_eq!(t.headers, strings(&["x", "y"]));
    assert_eq!(t.rows, vec![strings(&["1", "3"])]);
}
