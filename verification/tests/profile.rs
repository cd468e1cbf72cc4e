use fenix_profile::store::{Store, TypedValue};
use fenix_profile::FenixProfile;

fn get_initialized_store() -> Store {
    let mut db = Store::new();
    db.initialize().expect("ran initialization");
    db
}

fn get_all_page_urls(db: &mut Store) -> Vec<TypedValue> {
    db.all_page_urls()
}

fn get_all_visits(db: &mut Store) -> Vec<i64> {
    db.all_visit_entids()
}

fn get_all_visits_for_page(db: &mut Store, url: String) -> Vec<i64> {
    db.visit_entids_for_url(&url)
}

fn timestamp(t: i64) -> i64 {
    t * 1_000_000
}

#[test]
fn test_initialization() {
    let _db = get_initialized_store();
}

#[test]
fn test_pages_are_a_set() {
    let mut db = get_initialized_store();
    assert_eq!(0, get_all_page_urls(&mut db).len());

    db.record_visit_via_transact("https://www.mozilla.org".to_string(), timestamp(1))
        .expect("recorded visit");

    let urls = get_all_page_urls(&mut db);
    assert_eq!(urls, vec![TypedValue::Text("https://www.mozilla.org".to_string())]);

    db.record_visit_via_transact("https://www.mozilla.org".to_string(), timestamp(2))
        .expect("recorded visit");
    assert_eq!(1, get_all_page_urls(&mut db).len());

    db.record_visit_via_transact("https://www.example.org".to_string(), timestamp(3))
        .expect("recorded visit");
    let urls = get_all_page_urls(&mut db);
    assert_eq!(
        urls,
        vec![
            TypedValue::Text("https://www.mozilla.org".to_string()),
            TypedValue::Text("https://www.example.org".to_string()),
        ]
    );
}

#[test]
fn test_visits_are_recorded() {
    let mut db = get_initialized_store();
    assert_eq!(0, get_all_visits(&mut db).len());

    db.record_visit_via_builders("https://www.mozilla.org".to_string(), timestamp(1))
        .expect("recorded visit");
    assert_eq!(1, get_all_visits(&mut db).len());
    assert_eq!(1, get_all_visits_for_page(&mut db, "https://www.mozilla.org".to_string()).len());
    assert_eq!(0, get_all_visits_for_page(&mut db, "https://www.example.org".to_string()).len());

    db.record_visit_via_builders("https://www.example.org".to_string(), timestamp(2))
        .expect("recorded visit");
    db.record_visit_via_builders("https://www.example.org".to_string(), timestamp(3))
        .expect("recorded visit");
    assert_eq!(1, get_all_visits_for_page(&mut db, "https://www.mozilla.org".to_string()).len());
    assert_eq!(2, get_all_visits_for_page(&mut db, "https://www.example.org".to_string()).len());
}
