use azdo_boards::json::JsonValue;
use azdo_boards::serial::to_compact_string;
use azdo_boards::simplify::simplify_work_item_json;

fn s(text: &str) -> JsonValue {
    JsonValue::Str(text.to_string())
}

fn obj(pairs: Vec<(&str, JsonValue)>) -> JsonValue {
    JsonValue::Obj(
        pairs
            .into_iter()
            .map(|(k, v)| (k.to_string(), v))
            .collect(),
    )
}

#[test]
fn end_to_end_record_simplifies_to_flat_form() {
    let record = obj(vec![
        ("id", JsonValue::Num("42".to_string())),
        (
            "fields",
            obj(vec![
                ("System.Title", s("Fix bug")),
                ("System.BoardColumn", s("Active")),
                ("System.Tags", s("bug; ui")),
            ]),
        ),
    ]);
    let simplified = simplify_work_item_json(record);
    assert_eq!(
        to_compact_string(&simplified),
        r#"{"id":42,"Title":"Fix bug","Column":"Active","Tags":"bug;ui"}"#
    );
}

#[test]
fn simplify_is_idempotent() {
    let record = obj(vec![
        ("id", JsonValue::Num("7".to_string())),
        ("url", s("https://example.test/7")),
        (
            "fields",
            obj(vec![
                ("System.Title", s("A story")),
                ("System.WorkItemType", s("User Story")),
                ("System.Tags", s("a; b; c")),
                ("System.State", s("Active")),
                (
                    "System.AssignedTo",
                    obj(vec![
                        ("displayName", s("Sam Lee")),
                        ("uniqueName", s("sam@example.test")),
                        ("imageUrl", s("https://example.test/avatar")),
                    ]),
                ),
            ]),
        ),
        (
            "nested",
            obj(vec![("_links", s("x")), ("keep", s("y"))]),
        ),
    ]);
    let once = simplify_work_item_json(record);
    let first = to_compact_string(&once);
    let twice = simplify_work_item_json(once);
    let second = to_compact_string(&twice);
    assert_eq!(first, second);
}

#[test]
fn noise_keys_are_removed_everywhere() {
    let record = obj(vec![
        ("url", s("u")),
        ("_links", s("l")),
        ("descriptor", s("d")),
        ("imageUrl", s("i")),
        ("avatar", s("a")),
        ("keep", obj(vec![("url", s("nested")), ("name", s("n"))])),
    ]);
    let simplified = simplify_work_item_json(record);
    assert_eq!(to_compact_string(&simplified), r#"{"keep":{"name":"n"}}"#);
}

#[test]
fn denied_fields_are_dropped() {
    let record = obj(vec![(
        "fields",
        obj(vec![
            ("System.State", s("Active")),
            ("System.Reason", s("New")),
            ("System.CommentCount", JsonValue::Num("3".to_string())),
            ("Microsoft.VSTS.Common.StateChangeDate", s("2024-01-01")),
            ("System.Title", s("T")),
        ]),
    )]);
    let simplified = simplify_work_item_json(record);
    assert_eq!(to_compact_string(&simplified), r#"{"Title":"T"}"#);
}

#[test]
fn identity_objects_collapse_to_display_strings() {
    let with_unique = obj(vec![(
        "fields",
        obj(vec![(
            "System.CreatedBy",
            obj(vec![
                ("displayName", s("Sam Lee")),
                ("uniqueName", s("sam@example.test")),
            ]),
        )]),
    )]);
    assert_eq!(
        to_compact_string(&simplify_work_item_json(with_unique)),
        r#"{"CreatedBy":"Sam Lee <sam@example.test>"}"#
    );
    let without_unique = obj(vec![(
        "fields",
        obj(vec![(
            "System.CreatedBy",
            obj(vec![("displayName", s("Sam Lee")), ("uniqueName", s(""))]),
        )]),
    )]);
    assert_eq!(
        to_compact_string(&simplify_work_item_json(without_unique)),
        r#"{"CreatedBy":"Sam Lee"}"#
    );
}

#[test]
fn type_abbreviates_and_kanban_keys_map() {
    let record = obj(vec![(
        "fields",
        obj(vec![
            ("System.WorkItemType", s("User Story")),
            ("WEF_ABC123_Kanban.Column", s("Doing")),
            ("WEF_ABC123_Kanban.Lane", s("Expedite")),
            ("Custom.Whatever", s("kept")),
        ]),
    )]);
    let simplified = simplify_work_item_json(record);
    assert_eq!(
        to_compact_string(&simplified),
        r#"{"Type":"U","Column":"Doing","Lane":"Expedite","Custom.Whatever":"kept"}"#
    );
}

#[test]
fn first_write_wins_on_flattened_key_collision() {
    // Both raw keys map to Column; the first one wins.
    let record = obj(vec![(
        "fields",
        obj(vec![
            ("System.BoardColumn", s("First")),
            ("WEF_XYZ_Kanban.Column", s("Second")),
        ]),
    )]);
    assert_eq!(
        to_compact_string(&simplify_work_item_json(record)),
        r#"{"Column":"First"}"#
    );
    // A pre-existing top-level key beats a flattened one.
    let clash = obj(vec![
        ("Title", s("existing")),
        ("fields", obj(vec![("System.Title", s("flattened"))])),
    ]);
    assert_eq!(
        to_compact_string(&simplify_work_item_json(clash)),
        r#"{"Title":"existing"}"#
    );
}

#[test]
fn description_html_is_rendered_and_normalized() {
    let record = obj(vec![(
        "fields",
        obj(vec![("System.Description", s("<p>a</p><p>b</p>"))]),
    )]);
    assert_eq!(
        to_compact_string(&simplify_work_item_json(record)),
        "{\"Description\":\"a\\nb\"}"
    );
}

#[test]
fn rich_text_normalization_cleans_whitespace_and_separators() {
    let record = obj(vec![(
        "fields",
        obj(vec![(
            "System.Description",
            s("<p>x\t y</p><p>-----</p><p>[Image] done </p>"),
        )]),
    )]);
    let simplified = simplify_work_item_json(record);
    let text = to_compact_string(&simplified);
    // The dash separator collapses to three dashes and the image
    // placeholder disappears.
    assert_eq!(text, "{\"Description\":\"x y\\n---\\n done\"}");
}

#[test]
fn scalars_and_arrays_pass_through() {
    let record = JsonValue::Arr(vec![
        JsonValue::Num("1".to_string()),
        JsonValue::Bool(true),
        JsonValue::Null,
        s("x"),
    ]);
    assert_eq!(
        to_compact_string(&simplify_work_item_json(record)),
        r#"[1,true,null,"x"]"#
    );
}
