use ryokan::handlers::system::paging::truncate_to_page;

#[derive(Clone)]
struct Row {
    id: i64,
}

#[test]
fn truncate_to_page_returns_none_at_exact_page_size() {
    let entries: Vec<Row> = (1..=200).map(|id| Row { id }).collect();
    let (kept, older) = truncate_to_page(entries, 200, |r| r.id);
    assert_eq!(kept.len(), 200);
    assert_eq!(older, None, "200 rows on a page-size of 200: no older page");
}

#[test]
fn truncate_to_page_returns_some_when_extra_row_present() {
    let entries: Vec<Row> = (1..=201).map(|id| Row { id }).collect();
    let (kept, older) = truncate_to_page(entries, 200, |r| r.id);
    assert_eq!(kept.len(), 200);
    assert_eq!(older, Some(200), "201 rows on a page-size of 200: the 200th row's id");
}

#[test]
fn truncate_to_page_returns_none_for_short_page() {
    let (kept, older) = truncate_to_page::<Row, _>(vec![], 200, |r| r.id);
    assert_eq!(kept.len(), 0);
    assert_eq!(older, None);

    let entries: Vec<Row> = (1..=42).map(|id| Row { id }).collect();
    let (kept, older) = truncate_to_page(entries, 200, |r| r.id);
    assert_eq!(kept.len(), 42);
    assert_eq!(older, None);
}

#[test]
fn an_empty_page_has_no_last_row() {
    let (kept, older) = truncate_to_page(vec![Row { id: 1 }], 0, |r| r.id);
    assert!(kept.is_empty());
    assert_eq!(older, None);
}
