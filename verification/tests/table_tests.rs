use localai_cli::json::Json;
use localai_cli::table::{cell_string, compute_widths, extract_array, json_to_table, truncate};

fn s(t: &str) -> Json {
    Json::String(t.to_string())
}

fn num(t: &str) -> Json {
    Json::Number(t.to_string())
}

fn obj(members: Vec<(&str, Json)>) -> Json {
    Json::Object(members.into_iter().map(|(k, v)| (k.to_string(), v)).collect())
}

fn strings(v: &[&str]) -> Vec<String> {
    v.iter().map(|x| x.to_string()).collect()
}

#[test]
fn truncate_keeps_short_text() {
    assert_eq!(truncate("abc", 3), "abc");
    assert_eq!(truncate("", 0), "");
}

#[test]
fn truncate_marks_the_cut() {
    assert_eq!(truncate("abcdef", 4), "abc…");
    assert_eq!(truncate("héllo wörld", 5), "héll…");
    assert_eq!(truncate("ab", 1), "…");
}

#[test]
fn cell_texts() {
    assert_eq!(cell_string(&Json::Null), "");
    assert_eq!(cell_string(&Json::Bool(true)), "true");
    assert_eq!(cell_string(&Json::Bool(false)), "false");
    assert_eq!(cell_string(&num("1.5")), "1.5");
    assert_eq!(cell_string(&s("text")), "text");
    assert_eq!(cell_string(&Json::Array(vec![Json::Null, Json::Null, Json::Null])), "[3]");
    assert_eq!(cell_string(&obj(vec![("a", Json::Null), ("b", Json::Null)])), "{2 fields}");
    let long = "x".repeat(45);
    assert_eq!(cell_string(&s(&long)), format!("{}…", "x".repeat(39)));
}

#[test]
fn extract_prefers_wrapper_keys() {
    let v = obj(vec![("other", Json::Array(vec![num("1")])), ("models", Json::Array(vec![num("2")]))]);
    let a = extract_array(&v).unwrap();
    assert_eq!(format!("{:?}", a), format!("{:?}", vec![num("2")]));
    let w = obj(vec![("data", s("not a list")), ("other", Json::Array(vec![num("3")]))]);
    let b = extract_array(&w).unwrap();
    assert_eq!(format!("{:?}", b), format!("{:?}", vec![num("3")]));
    assert!(extract_array(&obj(vec![("x", num("1"))])).is_none());
    assert!(extract_array(&num("1")).is_none());
}

#[test]
fn table_of_objects_uses_key_union() {
    let v = Json::Array(vec![
        obj(vec![("id", s("a")), ("size", num("3"))]),
        obj(vec![("id", s("b")), ("owner", s("me"))]),
        num("7"),
    ]);
    let (headers, rows) = json_to_table(&v);
    assert_eq!(headers, strings(&["id", "size", "owner"]));
    assert_eq!(
        rows,
        vec![strings(&["a", "3", ""]), strings(&["b", "", "me"]), strings(&["", "", ""])]
    );
}

#[test]
fn table_caps_columns_at_six() {
    let keys = ["a", "b", "c", "d", "e", "f", "g", "h"];
    let v = Json::Array(vec![obj(keys.iter().map(|k| (*k, s(k))).collect())]);
    let (headers, rows) = json_to_table(&v);
    assert_eq!(headers, strings(&["a", "b", "c", "d", "e", "f"]));
    assert_eq!(rows, vec![strings(&["a", "b", "c", "d", "e", "f"])]);
}

#[test]
fn table_of_scalars_numbers_rows() {
    let v = obj(vec![("data", Json::Array(vec![s("x"), Json::Bool(true)]))]);
    let (headers, rows) = json_to_table(&v);
    assert_eq!(headers, strings(&["#", "value"]));
    assert_eq!(rows, vec![strings(&["0", "x"]), strings(&["1", "true"])]);
}

#[test]
fn table_of_plain_object_is_key_value() {
    let v = obj(vec![("status", s("ok")), ("count", num("2"))]);
    let (headers, rows) = json_to_table(&v);
    assert_eq!(headers, strings(&["key", "value"]));
    assert_eq!(rows, vec![strings(&["status", "ok"]), strings(&["count", "2"])]);
}

#[test]
fn table_of_empty_values() {
    let (h, r) = json_to_table(&Json::Array(Vec::new()));
    assert!(h.is_empty() && r.is_empty());
    let (h, r) = json_to_table(&obj(Vec::new()));
    assert!(h.is_empty() && r.is_empty());
    let (h, r) = json_to_table(&obj(vec![("items", Json::Array(Vec::new()))]));
    assert!(h.is_empty() && r.is_empty());
}

#[test]
fn table_of_scalar() {
    let (h, r) = json_to_table(&num("42"));
    assert_eq!(h, strings(&["value"]));
    assert_eq!(r, vec![strings(&["42"])]);
}

#[test]
fn widths_are_clamped() {
    let headers = strings(&["a", "name", "a-very-long-header-name-that-goes-on"]);
    let rows = vec![strings(&["x", "abcdefghij", "y"])];
    assert_eq!(compute_widths(&headers, &rows, 100), vec![6, 10, 28]);
}

#[test]
fn widths_look_at_the_first_80_rows_only() {
    let headers = strings(&["col"]);
    let mut rows: Vec<Vec<String>> = (0..80).map(|_| strings(&["short"])).collect();
    rows.push(strings(&["a much longer cell text"]));
    assert_eq!(compute_widths(&headers, &rows, 0), vec![6]);
    rows.insert(0, strings(&["a much longer cell text"]));
    assert_eq!(compute_widths(&headers, &rows, 0), vec![23]);
}

#[test]
fn widths_ignore_extra_cells() {
    let headers = strings(&["h"]);
    let rows = vec![strings(&["abcdefgh", "this cell has no column"])];
    assert_eq!(compute_widths(&headers, &rows, 0), vec![8]);
}
