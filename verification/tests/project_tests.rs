use azdo_boards::json::JsonValue;
use azdo_boards::project::work_items_to_csv;
use azdo_boards::simplify::simplify_work_item_json;

fn text_value(text: &str) -> JsonValue {
    JsonValue::Str(text.to_string())
}

fn record(pairs: Vec<(&str, JsonValue)>) -> JsonValue {
    JsonValue::Obj(
        pairs
            .into_iter()
            .map(|(k, v)| (k.to_string(), v))
            .collect(),
    )
}

#[test]
fn end_to_end_record_projects_to_csv() {
    let record = record(vec![
        ("id", JsonValue::Num("42".to_string())),
        (
            "fields",
            record(vec![
                ("System.Title", text_value("Fix bug")),
                ("System.BoardColumn", text_value("Active")),
                ("System.Tags", text_value("bug; ui")),
            ]),
        ),
    ]);
    let simplified = simplify_work_item_json(record);
    let csv = work_items_to_csv(&simplified).unwrap();
    assert_eq!(csv, "id,Title,Column,Tags\n42,Fix bug,Active,bug;ui\n");
}

#[test]
fn empty_description_column_is_pruned_and_projection_is_idempotent() {
    let rows = JsonValue::Arr(vec![
        record(vec![("id", JsonValue::Num("1".to_string())), ("Description", text_value("")), ("Title", text_value("a"))]),
        record(vec![("id", JsonValue::Num("2".to_string())), ("Description", text_value("")), ("Title", text_value("b"))]),
    ]);
    let first = work_items_to_csv(&rows).unwrap();
    assert_eq!(first, "id,Title\n1,a\n2,b\n");
    assert!(!first.contains("Description"));
    let second = work_items_to_csv(&rows).unwrap();
    assert_eq!(first, second);
}

#[test]
fn empty_array_projects_to_empty_output() {
    let rows = JsonValue::Arr(vec![]);
    assert_eq!(work_items_to_csv(&rows).unwrap(), "");
}

#[test]
fn scalar_input_is_rejected() {
    let err = work_items_to_csv(&text_value("nope")).unwrap_err();
    assert_eq!(err.message(), "Invalid input: expected object or array");
}

#[test]
fn cells_escape_line_breaks_and_quote_delimiters() {
    let rows = JsonValue::Arr(vec![record(vec![
        ("id", JsonValue::Num("1".to_string())),
        ("Title", text_value("a,b \"q\"")),
        ("Description", text_value("line1\nline2\tend\r")),
    ])]);
    let csv = work_items_to_csv(&rows).unwrap();
    assert_eq!(
        csv,
        "id,Title,Description\n1,\"a,b \"\"q\"\"\",line1\\nline2\\tend\n"
    );
}

#[test]
fn missing_cells_render_empty_for_active_columns() {
    let rows = JsonValue::Arr(vec![
        record(vec![("id", JsonValue::Num("1".to_string())), ("Title", text_value("a"))]),
        record(vec![("id", JsonValue::Num("2".to_string()))]),
    ]);
    assert_eq!(work_items_to_csv(&rows).unwrap(), "id,Title\n1,a\n2,\n");
}

#[test]
fn booleans_and_numbers_render_literally() {
    let rows = JsonValue::Arr(vec![record(vec![
        ("id", JsonValue::Num("3".to_string())),
        ("StackRank", JsonValue::Num("1999999.5".to_string())),
        ("Risk", JsonValue::Bool(true)),
    ])]);
    assert_eq!(
        work_items_to_csv(&rows).unwrap(),
        "id,Risk,StackRank\n3,true,1999999.5\n"
    );
}

#[test]
fn comments_column_serializes_as_compact_json() {
    let comments = JsonValue::Arr(vec![record(vec![
        ("id", JsonValue::Num("9".to_string())),
        ("text", text_value("hi")),
    ])]);
    let rows = JsonValue::Arr(vec![record(vec![
        ("id", JsonValue::Num("5".to_string())),
        ("comments", comments),
    ])]);
    let csv = work_items_to_csv(&rows).unwrap();
    assert_eq!(
        csv,
        "id,comments\n5,\"[{\"\"id\"\":9,\"\"text\"\":\"\"hi\"\"}]\"\n"
    );
}

#[test]
fn non_comment_arrays_and_objects_render_empty_but_activate() {
    let rows = JsonValue::Arr(vec![record(vec![
        ("id", JsonValue::Num("5".to_string())),
        ("Tags", JsonValue::Arr(vec![text_value("x")])),
    ])]);
    assert_eq!(work_items_to_csv(&rows).unwrap(), "id,Tags\n5,\n");
}

#[test]
fn compact_json_agrees_with_standard_serializer() {
    let value = record(vec![
        ("a", text_value("line\nbreak \"q\" \\ \u{1f}")),
        ("b", JsonValue::Arr(vec![JsonValue::Null, JsonValue::Bool(false)])),
        ("c", JsonValue::Num("12.25".to_string())),
    ]);
    let mine = azdo_boards::serial::to_compact_string(&value);
    let parsed: serde_json::Value = serde_json::from_str(&mine).unwrap();
    assert_eq!(mine, serde_json::to_string(&parsed).unwrap());
}

#[test]
fn rendering_an_empty_batch_reads_as_a_message() {
    let out = azdo_boards::project::render_work_items(vec![]).unwrap();
    assert_eq!(out, "No work items found");
}

#[test]
fn rendering_a_batch_simplifies_then_projects() {
    let record = record(vec![
        ("id", JsonValue::Num("42".to_string())),
        ("fields", record(vec![("System.Title", text_value("Fix bug"))])),
    ]);
    let out = azdo_boards::project::render_work_items(vec![record]).unwrap();
    assert_eq!(out, "id,Title\n42,Fix bug\n");
}
