use azdo_boards::json::JsonValue;
use azdo_boards::listings::{
    board_columns_to_csv, current_iteration_row, date_part, eq_ignore_ascii_case,
    filter_iterations_by_timeframe, iteration_rows, names_to_compact_json, profile_to_csv,
    team_members_to_csv, valid_timeframe,
};
use azdo_boards::models::{
    current_iteration_of, first_work_item, ids_of_references, is_current_iteration_missing,
    patch_operations, project_names, BoardColumn, BoardDetail, ClassificationNode,
    IterationAttributes, IterationListResponse, Profile, Project, ProjectListResponse, TeamMember,
    TeamMemberIdentity, TeamSettingsIteration, WiqlResponse, WorkItemReference,
};
use azdo_boards::text::{i32_to_dec, u32_to_dec};

fn iteration(name: &str, tf: Option<&str>, start: Option<&str>, finish: Option<&str>) -> TeamSettingsIteration {
    TeamSettingsIteration {
        id: "i".to_string(),
        name: name.to_string(),
        path: format!("Proj\\{}", name),
        attributes: IterationAttributes {
            start_date: start.map(|d| d.to_string()),
            finish_date: finish.map(|d| d.to_string()),
            time_frame: tf.map(|t| t.to_string()),
        },
        url: "u".to_string(),
    }
}

#[test]
fn date_part_cuts_at_first_t() {
    assert_eq!(date_part("2024-03-01T12:00:00Z"), "2024-03-01");
    assert_eq!(date_part("2024-03-01"), "2024-03-01");
    assert_eq!(date_part(""), "");
}

#[test]
fn current_iteration_renders_name_and_dates() {
    let it = iteration(
        "Sprint 1",
        Some("current"),
        Some("2024-03-01T00:00:00Z"),
        None,
    );
    assert_eq!(current_iteration_row(&it), "Sprint 1,2024-03-01,N/A");
}

#[test]
fn iteration_rows_join_with_commas() {
    let rows = iteration_rows(&vec![
        iteration("S1", Some("past"), Some("2024-01-01T0"), Some("2024-01-14T0")),
        iteration("S2", None, None, None),
    ]);
    assert_eq!(rows, "S1,past,2024-01-01,2024-01-14,S2,N/A,N/A,N/A");
}

#[test]
fn timeframe_validation_and_case_insensitive_filter() {
    assert!(valid_timeframe("current"));
    assert!(valid_timeframe("past"));
    assert!(valid_timeframe("future"));
    assert!(!valid_timeframe("Current"));
    assert!(!valid_timeframe("now"));
    assert!(eq_ignore_ascii_case("CurRent", "current"));
    assert!(!eq_ignore_ascii_case("pas", "past"));
    let kept = filter_iterations_by_timeframe(
        vec![
            iteration("S1", Some("Past"), None, None),
            iteration("S2", Some("future"), None, None),
            iteration("S3", None, None, None),
        ],
        "past",
    );
    assert_eq!(kept.len(), 1);
    assert_eq!(kept[0].name, "S1");
}

#[test]
fn board_columns_render_with_header() {
    let columns = vec![
        BoardColumn {
            id: "c1".to_string(),
            name: "To Do".to_string(),
            item_limit: 5,
            state_mappings: JsonValue::Null,
            column_type: "incoming".to_string(),
            is_split: None,
            description: None,
        },
        BoardColumn {
            id: "c2".to_string(),
            name: "Doing, really".to_string(),
            item_limit: -1,
            state_mappings: JsonValue::Null,
            column_type: "inProgress".to_string(),
            is_split: Some(true),
            description: None,
        },
    ];
    assert_eq!(
        board_columns_to_csv(&columns),
        "name,item_limit,is_split,column_type\nTo Do,5,false,incoming\n\"Doing, really\",-1,true,inProgress\n"
    );
}

#[test]
fn team_members_render_without_header() {
    let members = vec![TeamMember {
        identity: TeamMemberIdentity {
            display_name: "Sam Lee".to_string(),
            unique_name: "sam@example.test".to_string(),
            id: "1".to_string(),
        },
    }];
    assert_eq!(team_members_to_csv(&members), "Sam Lee,sam@example.test\n");
}

#[test]
fn profile_renders_name_and_email() {
    let profile = Profile {
        id: "p".to_string(),
        display_name: "Sam Lee".to_string(),
        email_address: "sam@example.test".to_string(),
        public_alias: "sam".to_string(),
    };
    assert_eq!(profile_to_csv(&profile), "Sam Lee,sam@example.test\n");
}

#[test]
fn name_lists_render_as_compact_json() {
    let names = vec!["Alpha".to_string(), "B \"eta\"".to_string()];
    assert_eq!(names_to_compact_json(&names), r#"["Alpha","B \"eta\""]"#);
}

#[test]
fn decimal_rendering_matches_std() {
    assert_eq!(u32_to_dec(0), "0");
    assert_eq!(u32_to_dec(1000), "1000");
    assert_eq!(u32_to_dec(4294967295), u32::MAX.to_string());
    assert_eq!(i32_to_dec(-42), "-42");
    assert_eq!(i32_to_dec(7), "7");
    assert_eq!(i32_to_dec(i32::MIN), i32::MIN.to_string());
    assert_eq!(i32_to_dec(i32::MAX), i32::MAX.to_string());
}

#[test]
fn wiql_reference_ids_come_out_in_order() {
    let response = WiqlResponse {
        work_items: vec![
            WorkItemReference { id: 3, url: "u3".to_string() },
            WorkItemReference { id: 1, url: "u1".to_string() },
        ],
    };
    assert_eq!(ids_of_references(&response), vec![3, 1]);
}

#[test]
fn missing_work_item_reports_upstream_error() {
    let err = match first_work_item(vec![], 42) {
        Ok(_) => panic!("expected an error for an empty batch"),
        Err(e) => e,
    };
    assert_eq!(err.message(), "Work item 42 not found");
}

#[test]
fn project_names_extracts_in_order() {
    let response = ProjectListResponse {
        value: vec![
            Project {
                id: "1".to_string(),
                name: "One".to_string(),
                description: None,
                url: "u".to_string(),
                state: "wellFormed".to_string(),
                visibility: None,
            },
            Project {
                id: "2".to_string(),
                name: "Two".to_string(),
                description: None,
                url: "u".to_string(),
                state: "wellFormed".to_string(),
                visibility: None,
            },
        ],
    };
    assert_eq!(project_names(response), vec!["One", "Two"]);
}

#[test]
fn patch_operations_set_each_field() {
    let ops = patch_operations(vec![
        ("System.Title".to_string(), JsonValue::Str("T".to_string())),
        ("System.Tags".to_string(), JsonValue::Str("a;b".to_string())),
    ]);
    assert_eq!(ops.len(), 2);
    assert_eq!(ops[0].op, "add");
    assert_eq!(ops[0].path, "/fields/System.Title");
    assert_eq!(ops[1].path, "/fields/System.Tags");
    assert!(ops[1].from.is_none());
}

#[test]
fn current_iteration_classification() {
    assert!(is_current_iteration_missing(
        "TF400409: CurrentIterationDoesNotExistException: no current iteration"
    ));
    assert!(!is_current_iteration_missing("VS403403: some other failure"));
    let some = current_iteration_of(IterationListResponse {
        value: vec![iteration("S1", Some("current"), None, None)],
    });
    assert_eq!(some.unwrap().name, "S1");
    assert!(current_iteration_of(IterationListResponse { value: vec![] }).is_none());
}

#[test]
fn classification_paths_collect_in_preorder() {
    let leaf = |path: &str| ClassificationNode {
        id: 1,
        identifier: "x".to_string(),
        name: "n".to_string(),
        path: path.to_string(),
        structure_type: "area".to_string(),
        children: None,
        has_children: Some(false),
    };
    let root = ClassificationNode {
        id: 0,
        identifier: "r".to_string(),
        name: "root".to_string(),
        path: "Proj".to_string(),
        structure_type: "area".to_string(),
        children: Some(vec![leaf("Proj\\A"), leaf("Proj\\B")]),
        has_children: Some(true),
    };
    let mut paths = Vec::new();
    root.collect_paths(&mut paths);
    assert_eq!(paths, vec!["Proj", "Proj\\A", "Proj\\B"]);
}

#[test]
fn board_types_come_from_allowed_mappings() {
    let mappings = JsonValue::Obj(vec![
        (
            "incoming".to_string(),
            JsonValue::Obj(vec![
                ("Bug".to_string(), JsonValue::Arr(vec![])),
                ("User Story".to_string(), JsonValue::Arr(vec![])),
            ]),
        ),
        (
            "outgoing".to_string(),
            JsonValue::Obj(vec![("Bug".to_string(), JsonValue::Arr(vec![]))]),
        ),
    ]);
    let board = BoardDetail {
        id: "b".to_string(),
        name: "Board".to_string(),
        url: "u".to_string(),
        revision: None,
        columns: None,
        rows: None,
        is_valid: None,
        allowed_mappings: Some(mappings),
        can_edit: None,
        fields: None,
    };
    assert_eq!(board.get_work_item_types(), vec!["Bug", "User Story"]);
}

#[test]
fn required_text_fields_reject_whitespace_only_input() {
    assert_eq!(
        azdo_boards::richtext::non_empty_trimmed("  my-org  "),
        Some("my-org".to_string())
    );
    assert_eq!(azdo_boards::richtext::non_empty_trimmed("   "), None);
    assert_eq!(azdo_boards::richtext::non_empty_trimmed(""), None);
}
