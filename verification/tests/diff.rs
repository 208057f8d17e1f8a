use sim_core::diff::{diff_json, json_equal, well_formed_json, DiffEntry, JsonMember, JsonValue, NumberRepr};

/// Converts a parsed document, member keys in the map's (sorted) order.
fn from_value(v: &serde_json::Value) -> JsonValue {
    match v {
        serde_json::Value::Null => JsonValue::Null,
        serde_json::Value::Bool(b) => JsonValue::Bool(*b),
        serde_json::Value::Number(n) => {
            let repr = if n.is_f64() {
                NumberRepr::Float(n.as_f64().unwrap().to_bits())
            } else if let Some(u) = n.as_u64() {
                NumberRepr::PosInt(u)
            } else {
                NumberRepr::NegInt(n.as_i64().unwrap())
            };
            JsonValue::Number { repr, text: n.to_string() }
        }
        serde_json::Value::String(s) => JsonValue::Str(s.clone()),
        serde_json::Value::Array(xs) => JsonValue::Array(xs.iter().map(from_value).collect()),
        serde_json::Value::Object(m) => JsonValue::Object(
            m.iter()
                .map(|(k, v)| JsonMember { key: k.clone(), value: from_value(v) })
                .collect(),
        ),
    }
}

fn doc(text: &str) -> JsonValue {
    from_value(&serde_json::from_str::<serde_json::Value>(text).unwrap())
}

fn diff(a: &str, b: &str) -> Vec<DiffEntry> {
    diff_json(&doc(a), &doc(b))
}

#[test]
fn identical_documents_have_no_differences() {
    let a = doc(r#"{"a": 1, "b": [1, 2, 3]}"#);
    let b = doc(r#"{"a": 1, "b": [1, 2, 3]}"#);
    assert!(diff_json(&a, &b).is_empty());
}

#[test]
fn catches_a_changed_scalar_field() {
    let diffs = diff(
        r#"{"dynasty": {"name": "House Meridian", "wealth": 100.0}}"#,
        r#"{"dynasty": {"name": "House Meridian", "wealth": 250.5}}"#,
    );
    assert_eq!(diffs.len(), 1);
    assert_eq!(diffs[0].path, "dynasty.wealth");
    assert_eq!(diffs[0].before, Some(doc("100.0")));
    assert_eq!(diffs[0].after, Some(doc("250.5")));
}

#[test]
fn catches_an_added_and_a_removed_key() {
    let diffs = diff(r#"{"only_in_a": 1, "shared": 1}"#, r#"{"only_in_b": 2, "shared": 1}"#);
    assert_eq!(diffs.len(), 2);
    assert_eq!(diffs[0].path, "only_in_a");
    assert_eq!(diffs[0].before, Some(doc("1")));
    assert_eq!(diffs[0].after, None);
    assert_eq!(diffs[1].path, "only_in_b");
    assert_eq!(diffs[1].before, None);
    assert_eq!(diffs[1].after, Some(doc("2")));
}

#[test]
fn matches_object_arrays_by_id_instead_of_index() {
    let diffs = diff(
        r#"{"cities": [{"id": 1, "population": 100}, {"id": 2, "population": 200}]}"#,
        r#"{"cities": [{"id": 3, "population": 300}, {"id": 1, "population": 100}, {"id": 2, "population": 250}]}"#,
    );
    assert_eq!(diffs.len(), 2);
    assert_eq!(diffs[0].path, "cities[id=2].population");
    assert_eq!(diffs[0].before, Some(doc("200")));
    assert_eq!(diffs[0].after, Some(doc("250")));
    assert_eq!(diffs[1].path, "cities[id=3]");
    assert_eq!(diffs[1].before, None);
    assert_eq!(diffs[1].after, Some(doc(r#"{"id": 3, "population": 300}"#)));
}

#[test]
fn scalar_arrays_fall_back_to_index_matching() {
    let diffs = diff(r#"{"state": [1, 2, 3]}"#, r#"{"state": [1, 9, 3]}"#);
    assert_eq!(diffs.len(), 1);
    assert_eq!(diffs[0].path, "state[1]");
}

#[test]
fn duplicate_ids_fall_back_to_index_matching_rather_than_panicking() {
    let diffs = diff(
        r#"[{"id": 1, "v": "x"}, {"id": 1, "v": "y"}]"#,
        r#"[{"id": 1, "v": "x"}, {"id": 1, "v": "z"}]"#,
    );
    assert_eq!(diffs.len(), 1);
    assert_eq!(diffs[0].path, "[1].v");
}

#[test]
fn string_ids_appear_quoted_in_the_path() {
    let diffs = diff(r#"{"items": [{"id": "b", "v": 1}]}"#, r#"{"items": [{"id": "b", "v": 2}]}"#);
    assert_eq!(diffs.len(), 1);
    assert_eq!(diffs[0].path, r#"items[id="b"].v"#);
}

#[test]
fn ids_are_visited_in_text_order_and_reordering_is_no_difference() {
    assert!(diff(r#"[{"id": 2}, {"id": 10}]"#, r#"[{"id": 10}, {"id": 2}]"#).is_empty());
    let diffs = diff(r#"[{"id": 2, "v": 0}, {"id": 10, "v": 0}]"#, r#"[{"id": 10, "v": 1}, {"id": 2, "v": 1}]"#);
    let paths: Vec<&str> = diffs.iter().map(|d| d.path.as_str()).collect();
    assert_eq!(paths, vec!["[id=10].v", "[id=2].v"]);
}

#[test]
fn arrays_of_different_lengths_report_the_extra_positions() {
    let diffs = diff("[1, 2]", "[1, 2, 3, 4]");
    let paths: Vec<&str> = diffs.iter().map(|d| d.path.as_str()).collect();
    assert_eq!(paths, vec!["[2]", "[3]"]);
    assert_eq!(diffs[1].before, None);
    assert_eq!(diffs[1].after, Some(doc("4")));
}

#[test]
fn a_changed_kind_is_one_difference_at_that_path() {
    let diffs = diff(r#"{"a": [1]}"#, r#"{"a": {"x": 1}}"#);
    assert_eq!(diffs.len(), 1);
    assert_eq!(diffs[0].path, "a");
    assert_eq!(diffs[0].before, Some(doc("[1]")));
}

#[test]
fn numbers_compare_by_value_and_kind() {
    assert!(json_equal(&doc("0.0"), &doc("-0.0")));
    assert!(!json_equal(&doc("1"), &doc("1.0")));
    assert!(diff("[0.0]", "[-0.0]").is_empty());
    assert_eq!(diff("[1]", "[1.0]").len(), 1);
}

#[test]
fn diffing_the_other_way_round_swaps_each_difference() {
    let a = r#"{"only_in_a": 1, "cities": [{"id": 1, "v": 2}], "xs": [1, 2, 3]}"#;
    let b = r#"{"only_in_b": 2, "cities": [{"id": 1, "v": 5}, {"id": 2}], "xs": [1]}"#;
    let forward = diff(a, b);
    let backward = diff(b, a);
    assert_eq!(forward.len(), backward.len());
    for (f, r) in forward.iter().zip(&backward) {
        assert_eq!(f.path, r.path);
        assert_eq!(f.before, r.after);
        assert_eq!(f.after, r.before);
    }
    let paths: Vec<&str> = forward.iter().map(|d| d.path.as_str()).collect();
    assert_eq!(paths, vec!["cities[id=1].v", "cities[id=2]", "only_in_a", "only_in_b", "xs[1]", "xs[2]"]);
}

#[test]
fn positional_entries_follow_the_text_of_their_paths() {
    let diffs = diff(
        r#"{"s": [0, 0, 0, 0, 0, 0, 0, 0, 0, 0, 0]}"#,
        r#"{"s": [0, 0, 1, 0, 0, 0, 0, 0, 0, 0, 1]}"#,
    );
    let paths: Vec<&str> = diffs.iter().map(|d| d.path.as_str()).collect();
    assert_eq!(paths, vec!["s[10]", "s[2]"]);
}

#[test]
fn members_out_of_key_order_are_not_well_formed() {
    assert!(well_formed_json(&doc(r#"{"a": 1, "b": {"c": [1, {"d": 2, "e": 3}]}}"#)));
    let unsorted = JsonValue::Object(vec![
        JsonMember { key: "b".to_string(), value: JsonValue::Null },
        JsonMember { key: "a".to_string(), value: JsonValue::Null },
    ]);
    assert!(!well_formed_json(&unsorted));
    let repeated = JsonValue::Array(vec![JsonValue::Object(vec![
        JsonMember { key: "a".to_string(), value: JsonValue::Null },
        JsonMember { key: "a".to_string(), value: JsonValue::Null },
    ])]);
    assert!(!well_formed_json(&repeated));
}

#[test]
fn string_ids_appear_in_paths_as_escaped_json_text() {
    let diffs = diff(
        r#"[{"id": "a\"b\u0001", "v": 1}]"#,
        r#"[{"id": "a\"b\u0001", "v": 2}]"#,
    );
    assert_eq!(diffs.len(), 1);
    assert_eq!(diffs[0].path, r#"[id="a\"b\u0001"].v"#);
}
