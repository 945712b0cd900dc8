use azdo_boards::json::JsonValue;
use azdo_boards::paginate::{should_continue, Comment, CommentPaginator, WANT_ALL_COMMENTS};

fn comment(id: u32) -> Comment {
    Comment {
        id,
        text: format!("comment {}", id),
        created_date: "2024-01-01T00:00:00Z".to_string(),
        created_by: JsonValue::Null,
    }
}

#[test]
fn pagination_stops_when_token_absent() {
    // Page N carries a continuation token exactly when N < 3, so collecting
    // everything performs exactly 3 fetches and keeps page order.
    let mut paginator = CommentPaginator::new(WANT_ALL_COMMENTS);
    let mut fetches = 0u32;
    loop {
        fetches += 1;
        let n = fetches;
        let page = vec![comment(n * 10 + 1), comment(n * 10 + 2)];
        let token_present = n < 3;
        if !paginator.absorb_page(page, token_present) {
            break;
        }
        assert!(fetches < 10, "paginator failed to stop");
    }
    assert_eq!(fetches, 3);
    let ids: Vec<u32> = paginator.into_comments().iter().map(|c| c.id).collect();
    assert_eq!(ids, vec![11, 12, 21, 22, 31, 32]);
}

#[test]
fn pagination_stops_once_count_is_satisfied() {
    let mut paginator = CommentPaginator::new(3);
    // First page: 2 comments, token present: must continue.
    assert!(paginator.absorb_page(vec![comment(1), comment(2)], true));
    // Second page reaches 4 >= 3: must stop even though a token remains.
    assert!(!paginator.absorb_page(vec![comment(3), comment(4)], true));
    assert_eq!(paginator.into_comments().len(), 4);
}

#[test]
fn want_zero_stops_after_first_page() {
    let mut paginator = CommentPaginator::new(0);
    assert!(!paginator.absorb_page(vec![], true));
    assert_eq!(paginator.into_comments().len(), 0);
}

#[test]
fn should_continue_decision_table() {
    assert!(!should_continue(WANT_ALL_COMMENTS, 100, false));
    assert!(should_continue(WANT_ALL_COMMENTS, 100, true));
    assert!(should_continue(5, 4, true));
    assert!(!should_continue(5, 5, true));
    assert!(!should_continue(5, 4, false));
    assert!(!should_continue(0, 0, true));
}
