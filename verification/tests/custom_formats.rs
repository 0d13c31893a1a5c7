use ryokan::models::custom_formats::{
    delete, delete_defaults_with_tx, get_by_id, insert, insert_with_tx, list_with_scores, update,
    FormatStore, ORIGIN_DEFAULTS, ORIGIN_IMPORT, ORIGIN_MANUAL,
};
use ryokan::models::StoreError;

const NOW: i64 = 1_700_000_000;

#[test]
fn an_added_format_is_read_with_its_score() {
    let mut db = FormatStore::new();
    let id = insert(&mut db, "Dual Audio", Some("t1"), "{}", -50, ORIGIN_MANUAL, NOW).unwrap();
    let f = get_by_id(&db, id).unwrap();
    assert_eq!(f.name, "Dual Audio");
    assert_eq!(f.trash_id.as_deref(), Some("t1"));
    assert_eq!(f.json, "{}");
    assert_eq!(f.score, -50);
    assert_eq!(f.origin, ORIGIN_MANUAL);
    assert_eq!((f.created_at, f.updated_at), (NOW, NOW));
    assert!(get_by_id(&db, id + 1).is_none());
}

#[test]
fn a_name_is_given_once() {
    let mut db = FormatStore::new();
    let a = insert(&mut db, "A", None, "{}", 1, ORIGIN_IMPORT, NOW).unwrap();
    let b = insert(&mut db, "B", None, "{}", 1, ORIGIN_IMPORT, NOW).unwrap();
    let again = insert(&mut db, "A", None, "{}", 2, ORIGIN_IMPORT, NOW);
    assert_eq!(again, Err(StoreError::Duplicate));
    assert_eq!(update(&mut db, b, "A", None, "{}", 2, NOW), Err(StoreError::Duplicate));
    assert_eq!(update(&mut db, a, "A", None, "[]", 2, NOW + 1), Ok(()));
    assert_eq!(get_by_id(&db, a).unwrap().score, 2);
    assert_eq!(get_by_id(&db, a).unwrap().json, "[]");
    assert_eq!(get_by_id(&db, b).unwrap().score, 1);
    assert_eq!(update(&mut db, 99, "C", None, "{}", 2, NOW), Err(StoreError::MissingParent));
    assert!(db.check());
}

#[test]
fn a_format_without_a_score_counts_nothing() {
    let mut db = FormatStore::new();
    let id = insert(&mut db, "A", None, "{}", 7, ORIGIN_MANUAL, NOW).unwrap();
    db.scores.clear();
    assert_eq!(get_by_id(&db, id).unwrap().score, 0);
    update(&mut db, id, "A", None, "{}", 9, NOW).unwrap();
    assert_eq!(get_by_id(&db, id).unwrap().score, 9);
}

#[test]
fn formats_are_listed_by_name_in_any_case() {
    let mut db = FormatStore::new();
    for name in ["b", "A", "C"] {
        insert_with_tx(&mut db, name, None, "{}", 0, ORIGIN_MANUAL, NOW).unwrap();
    }
    let names: Vec<String> = list_with_scores(&db).into_iter().map(|f| f.name).collect();
    assert_eq!(names, vec!["A", "b", "C"]);
}

#[test]
fn a_reset_leaves_what_the_user_added() {
    let mut db = FormatStore::new();
    let mine = insert(&mut db, "Mine", None, "{}", 5, ORIGIN_MANUAL, NOW).unwrap();
    insert(&mut db, "Bundled", None, "{}", 5, ORIGIN_DEFAULTS, NOW).unwrap();
    assert_eq!(delete_defaults_with_tx(&mut db), 1);
    assert_eq!(db.formats.len(), 1);
    assert_eq!(db.scores.len(), 1);
    delete(&mut db, mine);
    assert!(db.formats.is_empty());
    assert!(db.scores.is_empty());
}

#[test]
fn no_format_is_added_when_the_ids_are_used_up() {
    let mut db = FormatStore { formats: Vec::new(), scores: Vec::new(), last_id: i64::MAX };
    let r = insert(&mut db, "A", None, "{}", 0, ORIGIN_MANUAL, NOW);
    assert_eq!(r, Err(StoreError::Full));
}
