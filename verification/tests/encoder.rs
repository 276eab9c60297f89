use fastsql2json::json_generator::{JsonGenerator, ResultGroup, SqlValue};

fn generate(groups: Vec<ResultGroup>, path: &str) -> serde_json::Value {
    let generator = JsonGenerator::new("8.0.30".to_string());
    let text = generator.generate_json(&groups, path);
    serde_json::from_str(&text).unwrap()
}

#[test]
fn test_json_generator() {
    let json_generator = JsonGenerator::new("8.0.30".to_string());

    let mock_results: Vec<ResultGroup> = Vec::new();

    let json_str = json_generator.generate_json(&mock_results, "metadata.sql");

    let json_value: serde_json::Value = serde_json::from_str(&json_str).unwrap();
    assert!(json_value.get("metadata").is_some());
    assert!(json_value.get("metadata").unwrap().as_array().is_some());
}

#[test]
fn document_has_single_root_named_after_stem() {
    let group = ResultGroup {
        columns: vec!["id".to_string(), "name".to_string()],
        rows: vec![
            vec![SqlValue::Int(1), SqlValue::Text("a".to_string())],
            vec![SqlValue::Int(2), SqlValue::Text("b".to_string())],
        ],
    };
    let v = generate(vec![group], "queries/kpi.sql");
    let obj = v.as_object().unwrap();
    assert_eq!(obj.len(), 1);
    let rows = v.get("kpi").unwrap().as_array().unwrap();
    assert_eq!(rows.len(), 2);
    assert_eq!(rows[0].get("id").unwrap().as_i64().unwrap(), 1);
    assert_eq!(rows[0].get("name").unwrap().as_str().unwrap(), "a");
    assert_eq!(rows[1].get("id").unwrap().as_i64().unwrap(), 2);
    assert_eq!(rows[1].get("name").unwrap().as_str().unwrap(), "b");
}

#[test]
fn numeric_strings_normalize() {
    let group = ResultGroup {
        columns: vec![
            "a".to_string(),
            "b".to_string(),
            "c".to_string(),
            "d".to_string(),
        ],
        rows: vec![vec![
            SqlValue::Text("12.5000".to_string()),
            SqlValue::Text("0012".to_string()),
            SqlValue::Text("12.000000".to_string()),
            SqlValue::Text("hello".to_string()),
        ]],
    };
    let v = generate(vec![group], "n.sql");
    let row = &v.get("n").unwrap().as_array().unwrap()[0];
    assert_eq!(row.get("a").unwrap().as_f64().unwrap(), 12.5);
    assert_eq!(row.get("b").unwrap().as_i64().unwrap(), 12);
    assert_eq!(row.get("c").unwrap().as_i64().unwrap(), 12);
    assert_eq!(row.get("d").unwrap().as_str().unwrap(), "hello");
}

#[test]
fn null_and_absent_values_map_to_null() {
    let group = ResultGroup {
        columns: vec!["x".to_string(), "y".to_string(), "z".to_string()],
        rows: vec![vec![SqlValue::Null, SqlValue::Approx(None)]],
    };
    let v = generate(vec![group], "nulls.sql");
    let row = &v.get("nulls").unwrap().as_array().unwrap()[0];
    assert!(row.get("x").unwrap().is_null());
    assert!(row.get("y").unwrap().is_null());
    // The row is shorter than the column list: the missing cell is null.
    assert!(row.get("z").unwrap().is_null());
}

#[test]
fn oversized_integer_text_falls_back_to_string() {
    let group = ResultGroup {
        columns: vec!["big".to_string(), "max".to_string()],
        rows: vec![vec![
            SqlValue::Text("99999999999999999999".to_string()),
            SqlValue::Text("9223372036854775807".to_string()),
        ]],
    };
    let v = generate(vec![group], "big.sql");
    let row = &v.get("big").unwrap().as_array().unwrap()[0];
    assert_eq!(
        row.get("big").unwrap().as_str().unwrap(),
        "99999999999999999999"
    );
    assert_eq!(row.get("max").unwrap().as_i64().unwrap(), 9223372036854775807);
}

#[test]
fn date_and_time_render_padded() {
    let group = ResultGroup {
        columns: vec!["d".to_string(), "t".to_string()],
        rows: vec![vec![
            SqlValue::Date(2024, 3, 7, 0, 0, 0, 0),
            SqlValue::Time(false, 0, 9, 5, 7, 1234),
        ]],
    };
    let v = generate(vec![group], "cal.sql");
    let row = &v.get("cal").unwrap().as_array().unwrap()[0];
    assert_eq!(row.get("d").unwrap().as_str().unwrap(), "2024-03-07");
    assert_eq!(row.get("t").unwrap().as_str().unwrap(), "09:05:07.001234");
}

#[test]
fn approximate_values_carry_their_rendering() {
    let group = ResultGroup {
        columns: vec!["f".to_string(), "bad".to_string()],
        rows: vec![vec![
            SqlValue::Approx(Some("3.25".to_string())),
            SqlValue::Approx(Some("not a number".to_string())),
        ]],
    };
    let v = generate(vec![group], "f.sql");
    let row = &v.get("f").unwrap().as_array().unwrap()[0];
    assert_eq!(row.get("f").unwrap().as_f64().unwrap(), 3.25);
    assert!(row.get("bad").unwrap().is_null());
}

#[test]
fn integer_and_unsigned_columns_are_numbers() {
    let group = ResultGroup {
        columns: vec!["i".to_string(), "u".to_string()],
        rows: vec![vec![SqlValue::Int(-7), SqlValue::UInt(18446744073709551615)]],
    };
    let v = generate(vec![group], "ints.sql");
    let row = &v.get("ints").unwrap().as_array().unwrap()[0];
    assert_eq!(row.get("i").unwrap().as_i64().unwrap(), -7);
    assert_eq!(row.get("u").unwrap().as_u64().unwrap(), 18446744073709551615);
}

#[test]
fn empty_groups_contribute_nothing() {
    let empty = ResultGroup {
        columns: vec![],
        rows: vec![],
    };
    let one = ResultGroup {
        columns: vec!["v".to_string()],
        rows: vec![vec![SqlValue::Int(5)]],
    };
    let v = generate(vec![empty, one], "multi.sql");
    let rows = v.get("multi").unwrap().as_array().unwrap();
    assert_eq!(rows.len(), 1);
    assert_eq!(rows[0].get("v").unwrap().as_i64().unwrap(), 5);
}

#[test]
fn string_values_are_escaped() {
    let group = ResultGroup {
        columns: vec!["q".to_string()],
        rows: vec![vec![SqlValue::Text("he said \"hi\"\nback\\slash".to_string())]],
    };
    let v = generate(vec![group], "esc.sql");
    let row = &v.get("esc").unwrap().as_array().unwrap()[0];
    assert_eq!(
        row.get("q").unwrap().as_str().unwrap(),
        "he said \"hi\"\nback\\slash"
    );
}

#[test]
fn pathless_input_uses_fallback_root() {
    let v = generate(vec![], "queries/");
    assert!(v.get("result").is_some());
    // `.` and `..` have no file stem either: same fallback.
    let v = generate(vec![], "..");
    assert!(v.get("result").is_some());
    let v = generate(vec![], "a/.");
    assert!(v.get("result").is_some());
}

#[test]
fn pretty_layout_is_exact() {
    let generator = JsonGenerator::new("8.0.30".to_string());
    let group = ResultGroup {
        columns: vec!["id".to_string()],
        rows: vec![vec![SqlValue::Int(1)]],
    };
    let text = generator.generate_json(&vec![group], "kpi.sql");
    assert_eq!(
        text,
        "{\n  \"kpi\": [\n    {\n      \"id\": 1\n    }\n  ]\n}"
    );
    let empty = generator.generate_json(&Vec::new(), "kpi.sql");
    assert_eq!(empty, "{\n  \"kpi\": []\n}");
}
