use lima::cursor::{decode_cursor, Cursor};
use lima::keyset::{comes_after, ranked_comes_after, select_page, text_less};
use lima::listing::{
    next_cursor, page_limit, plan_project_listing, plan_project_listing_with, project_page, tag_page,
    ListProjectsParams, ListingError, ProjectListing,
};
use lima::models::{ProjectRow, TagRow};

fn key_cursor(updated_at: &str, id: &str, rank: Option<u64>) -> Cursor {
    Cursor { updated_at: updated_at.to_string(), id: id.to_string(), rank }
}

/// The page of a listing whose rows are in full-sort order.
fn page(rows: &[(String, String)], limit: usize, after: Option<&Cursor>) -> Vec<(String, String)> {
    let after = after.cloned();
    select_page(&rows.to_vec(), limit, &after).into_iter().map(|i| rows[i].clone()).collect()
}

#[test]
fn keyset_scan_returns_every_row_once_in_order() {
    let mut rows: Vec<(String, String)> = Vec::new();
    for t in 0..4 {
        for id in 0..5 {
            rows.push((format!("2024-01-0{}", t), format!("id-{}", id)));
        }
    }
    rows.sort();
    rows.reverse();
    for limit in 1..8 {
        let mut seen: Vec<(String, String)> = Vec::new();
        let mut cursor: Option<Cursor> = None;
        loop {
            let p = page(&rows, limit, cursor.as_ref());
            seen.extend(p.iter().cloned());
            if p.len() < limit || p.is_empty() {
                break;
            }
            let (u, i) = p.last().unwrap();
            cursor = Some(key_cursor(u, i, None));
        }
        assert_eq!(seen, rows);
    }
}

#[test]
fn continuation_is_a_composite_comparison() {
    let c = key_cursor("2024-01-02", "m", None);
    assert!(comes_after("2024-01-02", "a", &c));
    assert!(!comes_after("2024-01-02", "m", &c));
    assert!(!comes_after("2024-01-02", "z", &c));
    assert!(comes_after("2024-01-01", "z", &c));
    assert!(!comes_after("2024-01-03", "a", &c));
    assert!(text_less("ab", "abc"));
    assert!(!text_less("abc", "ab"));
    assert!(text_less("Z", "a"));
}

#[test]
fn ranked_continuation_puts_worse_ranks_after() {
    let c = key_cursor("2024-01-02", "m", Some(10));
    assert!(ranked_comes_after(11, "2030-01-01", "z", &c));
    assert!(!ranked_comes_after(9, "2000-01-01", "a", &c));
    assert!(ranked_comes_after(10, "2024-01-01", "z", &c));
    assert!(ranked_comes_after(10, "2024-01-02", "a", &c));
    assert!(!ranked_comes_after(10, "2024-01-02", "m", &c));
}

#[test]
fn limit_is_clamped() {
    assert_eq!(page_limit(None), 50);
    assert_eq!(page_limit(Some(0)), 1);
    assert_eq!(page_limit(Some(-5)), 1);
    assert_eq!(page_limit(Some(500)), 200);
    assert_eq!(page_limit(Some(20)), 20);
}

#[test]
fn search_rejects_a_plain_cursor() {
    let plain = key_cursor("2024", "a", None);
    let r = plan_project_listing_with(Some(10), Some(plain), Some("dragon".to_string()));
    assert_eq!(r.unwrap_err(), ListingError::CursorWithoutRank);
    let ranked = key_cursor("2024", "a", Some(3));
    match plan_project_listing_with(Some(10), Some(ranked), Some("dragon".to_string())).unwrap() {
        ProjectListing::Search { query, limit, after } => {
            assert_eq!(query, "dragon");
            assert_eq!(limit, 10);
            assert_eq!(after.unwrap().rank, Some(3));
        }
        other => panic!("unexpected {:?}", other),
    }
}

#[test]
fn blank_query_lists() {
    let plain = key_cursor("2024", "a", None);
    match plan_project_listing_with(None, Some(plain), Some("   ".to_string())).unwrap() {
        ProjectListing::List { limit, after } => {
            assert_eq!(limit, 50);
            assert_eq!(after.unwrap().id, "a");
        }
        other => panic!("unexpected {:?}", other),
    }
}

#[test]
fn listing_params_decode_the_cursor() {
    let bad = ListProjectsParams { limit: None, cursor: Some("not a cursor".to_string()), query: None };
    assert_eq!(plan_project_listing(bad).unwrap_err(), ListingError::InvalidCursor);
    let text = next_cursor(&"2024".to_string(), &"x".to_string(), None);
    let plain = ListProjectsParams { limit: Some(5), cursor: Some(text.clone()), query: Some("q".to_string()) };
    assert_eq!(plan_project_listing(plain).unwrap_err(), ListingError::CursorWithoutRank);
    let listing = ListProjectsParams { limit: Some(5), cursor: Some(text), query: None };
    match plan_project_listing(listing).unwrap() {
        ProjectListing::List { limit, after } => {
            assert_eq!(limit, 5);
            assert_eq!(after.unwrap().updated_at, "2024");
        }
        other => panic!("unexpected {:?}", other),
    }
}

fn tag(id: &str, updated_at: &str) -> TagRow {
    TagRow {
        id: id.to_string(),
        name: format!("name-{}", id),
        color: "#000000".to_string(),
        created_at: updated_at.to_string(),
        updated_at: updated_at.to_string(),
    }
}

#[test]
fn next_cursor_comes_from_the_last_row() {
    let resp = tag_page(vec![tag("b", "2024-02"), tag("a", "2024-01")]);
    assert_eq!(resp.items.len(), 2);
    assert_eq!(resp.items[1].name, "name-a");
    let c = decode_cursor(resp.next_cursor.as_ref().unwrap()).unwrap();
    assert_eq!((c.updated_at.as_str(), c.id.as_str(), c.rank), ("2024-01", "a", None));
    assert_eq!(tag_page(vec![]).next_cursor, None);
}

#[test]
fn project_page_carries_the_rank() {
    let row = ProjectRow {
        id: "p1".to_string(),
        folder_path: "p".to_string(),
        name: "P".to_string(),
        description: String::new(),
        main_image_id: None,
        created_at: "2024".to_string(),
        updated_at: "2025".to_string(),
        last_scanned_at: None,
    };
    let resp = project_page(vec![row], Some(9));
    let c = decode_cursor(resp.next_cursor.as_ref().unwrap()).unwrap();
    assert_eq!((c.updated_at.as_str(), c.id.as_str(), c.rank), ("2025", "p1", Some(9)));
    assert_eq!(project_page(vec![], None).next_cursor, None);
}

#[test]
fn page_selection_skips_to_the_cursor() {
    let rows: Vec<(String, String)> = vec![
        ("2024-03".to_string(), "c".to_string()),
        ("2024-02".to_string(), "b".to_string()),
        ("2024-02".to_string(), "a".to_string()),
        ("2024-01".to_string(), "z".to_string()),
    ];
    assert_eq!(select_page(&rows, 2, &None), vec![0, 1]);
    assert_eq!(select_page(&rows, 2, &Some(key_cursor("2024-02", "b", None))), vec![2, 3]);
    assert_eq!(select_page(&rows, 5, &Some(key_cursor("2024-01", "z", None))), Vec::<usize>::new());
    assert_eq!(select_page(&rows, 0, &None), Vec::<usize>::new());
}
