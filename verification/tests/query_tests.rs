use azdo_boards::query::{build_wiql_query, QueryWorkItemsArgs};

fn empty_args(project: &str) -> QueryWorkItemsArgs {
    QueryWorkItemsArgs {
        organization: "org".to_string(),
        project: project.to_string(),
        area_path: None,
        iteration_path: None,
        created_date_from: None,
        created_date_to: None,
        modified_date_from: None,
        modified_date_to: None,
        include_board_column: vec![],
        include_board_row: vec![],
        include_work_item_type: vec![],
        include_state: vec![],
        exclude_board_column: vec![],
        exclude_board_row: vec![],
        exclude_work_item_type: vec![],
        exclude_state: vec![],
        include_assigned_to: vec![],
        exclude_assigned_to: vec![],
        include_tags: vec![],
        exclude_tags: vec![],
        include_latest_n_comments: None,
    }
}

#[test]
fn empty_filter_falls_back_to_project_scope() {
    let args = empty_args("Proj");
    assert_eq!(
        build_wiql_query(&args),
        "SELECT [Id] FROM WorkItems WHERE [Project] = 'Proj'"
    );
}

#[test]
fn quote_in_tag_is_doubled() {
    let mut args = empty_args("Proj");
    args.include_tags = vec!["O'Brien".to_string()];
    assert_eq!(
        build_wiql_query(&args),
        "SELECT [Id] FROM WorkItems WHERE [Tags] CONTAINS 'O''Brien'"
    );
}

#[test]
fn quote_in_project_fallback_is_doubled() {
    let args = empty_args("O'Proj");
    assert_eq!(
        build_wiql_query(&args),
        "SELECT [Id] FROM WorkItems WHERE [Project] = 'O''Proj'"
    );
}

#[test]
fn include_state_yields_single_in_clause() {
    let mut args = empty_args("Proj");
    args.include_state = vec!["Active".to_string(), "Resolved".to_string()];
    assert_eq!(
        build_wiql_query(&args),
        "SELECT [Id] FROM WorkItems WHERE [State] IN ('Active', 'Resolved')"
    );
}

#[test]
fn clauses_come_in_fixed_order() {
    let mut args = empty_args("Proj");
    args.area_path = Some("Proj\\Team".to_string());
    args.created_date_from = Some("2024-01-01".to_string());
    args.include_state = vec!["Active".to_string()];
    args.exclude_state = vec!["Closed".to_string()];
    args.include_tags = vec!["bug".to_string()];
    args.exclude_tags = vec!["wontfix".to_string()];
    assert_eq!(
        build_wiql_query(&args),
        "SELECT [Id] FROM WorkItems WHERE [AreaPath] UNDER 'Proj\\Team' AND \
         [CreatedDate] >= '2024-01-01' AND [State] IN ('Active') AND \
         [State] NOT IN ('Closed') AND [Tags] CONTAINS 'bug' AND \
         NOT [Tags] CONTAINS 'wontfix'"
    );
}

#[test]
fn overlapping_include_and_exclude_both_emitted() {
    let mut args = empty_args("Proj");
    args.include_board_column = vec!["Doing".to_string()];
    args.exclude_board_column = vec!["Doing".to_string()];
    assert_eq!(
        build_wiql_query(&args),
        "SELECT [Id] FROM WorkItems WHERE [BoardColumn] IN ('Doing') AND [BoardColumn] NOT IN ('Doing')"
    );
}
