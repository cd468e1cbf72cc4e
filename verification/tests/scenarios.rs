use fenix_profile::error::{ProfileError, TempName};
use fenix_profile::extern_result::i64_to_decimal;
use fenix_profile::fenix_profile_record_visit;
use fenix_profile::store::{Store, TypedValue};
use fenix_profile::vocab::Keyword;
use fenix_profile::FenixProfile;

fn initialized() -> Store {
    let mut db = Store::new();
    db.initialize().expect("ran initialization");
    db
}

#[test]
fn first_visit_creates_page_and_visit() {
    let mut db = initialized();
    let visit = db
        .record_visit_via_builders("https://example.org".to_string(), 1_000_000)
        .expect("recorded visit");
    let urls = db.all_page_urls();
    assert_eq!(urls, vec![TypedValue::Text("https://example.org".to_string())]);
    let visits = db.visit_entids_for_url(&"https://example.org".to_string());
    assert_eq!(visits, vec![visit]);
    assert_eq!(db.all_visit_entids(), vec![visit]);
}

#[test]
fn second_visit_reuses_page() {
    let mut db = initialized();
    let first = db
        .record_visit_via_builders("https://example.org".to_string(), 1_000_000)
        .expect("recorded visit");
    let second = db
        .record_visit_via_builders("https://example.org".to_string(), 2_000_000)
        .expect("recorded visit");
    assert_ne!(first, second);
    assert_eq!(1, db.all_page_urls().len());
    let visits = db.visit_entids_for_url(&"https://example.org".to_string());
    assert_eq!(visits, vec![first, second]);
}

#[test]
fn recording_before_initialize_is_a_schema_error() {
    let mut db = Store::new();
    let r = db.record_visit_via_builders("https://example.org".to_string(), 1_000_000);
    assert_eq!(r, Err(ProfileError::AttributeNotFound(Keyword::PageUrl)));
    assert_eq!(0, db.all_page_urls().len());
    assert_eq!(0, db.all_visit_entids().len());

    let r = db.record_visit_via_transact("https://example.org".to_string(), 1_000_000);
    assert_eq!(r, Err(ProfileError::AttributeNotFound(Keyword::PageUrl)));
    assert_eq!(0, db.all_page_urls().len());
}

#[test]
fn initialize_is_idempotent() {
    let mut db = initialized();
    let first = db
        .record_visit_via_builders("https://example.org".to_string(), 1_000_000)
        .expect("recorded visit");
    db.initialize().expect("re-ran initialization");
    let second = db
        .record_visit_via_builders("https://example.org".to_string(), 2_000_000)
        .expect("recorded visit");
    assert_eq!(1, db.all_page_urls().len());
    assert_eq!(vec![first, second], db.visit_entids_for_url(&"https://example.org".to_string()));
}

#[test]
fn distinct_urls_get_distinct_pages() {
    let mut db = initialized();
    db.record_visit_via_builders("https://a.example".to_string(), 1_000_000)
        .expect("recorded visit");
    db.record_visit_via_builders("https://b.example".to_string(), 2_000_000)
        .expect("recorded visit");
    assert_eq!(
        db.all_page_urls(),
        vec![
            TypedValue::Text("https://a.example".to_string()),
            TypedValue::Text("https://b.example".to_string()),
        ]
    );
    assert_eq!(1, db.visit_entids_for_url(&"https://a.example".to_string()).len());
    assert_eq!(1, db.visit_entids_for_url(&"https://b.example".to_string()).len());
}

#[test]
fn both_variants_agree() {
    let mut via_builders = initialized();
    let mut via_transact = initialized();
    let b1 = via_builders
        .record_visit_via_builders("https://example.org".to_string(), 1_000_000)
        .expect("recorded visit");
    let t1 = via_transact
        .record_visit_via_transact("https://example.org".to_string(), 1_000_000)
        .expect("recorded visit");
    assert_eq!(b1, t1);
    let b2 = via_builders
        .record_visit_via_builders("https://example.org".to_string(), 2_000_000)
        .expect("recorded visit");
    let t2 = via_transact
        .record_visit_via_transact("https://example.org".to_string(), 2_000_000)
        .expect("recorded visit");
    assert_eq!(b2, t2);
    assert_eq!(via_builders.all_page_urls(), via_transact.all_page_urls());
    assert_eq!(via_builders.all_visit_entids(), via_transact.all_visit_entids());
}

#[test]
fn boundary_result_carries_decimal_id() {
    let mut db = initialized();
    let r = fenix_profile_record_visit(&mut db, "https://example.org".to_string(), 1);
    let ok = r.ok.expect("ok text");
    assert!(r.err.is_none());
    assert!(ok.chars().all(|c| c.is_ascii_digit()));
    let returned: i64 = ok.parse().expect("decimal id");
    assert_eq!(vec![returned], db.visit_entids_for_url(&"https://example.org".to_string()));
}

#[test]
fn boundary_result_carries_error_text() {
    let mut db = Store::new();
    let r = fenix_profile_record_visit(&mut db, "https://example.org".to_string(), 1);
    assert!(r.ok.is_none());
    assert_eq!(r.err.expect("err text"), "expected :page/url".to_string());
    assert_eq!(0, db.all_page_urls().len());
}

#[test]
fn decimal_rendering_is_exact() {
    assert_eq!(i64_to_decimal(0), "0".to_string());
    assert_eq!(i64_to_decimal(7), "7".to_string());
    assert_eq!(i64_to_decimal(35), "35".to_string());
    assert_eq!(i64_to_decimal(1000), "1000".to_string());
    assert_eq!(i64_to_decimal(-12), "-12".to_string());
    assert_eq!(i64_to_decimal(i64::MAX), "9223372036854775807".to_string());
    assert_eq!(i64_to_decimal(i64::MIN), "-9223372036854775808".to_string());
}

#[test]
fn error_messages_are_exact() {
    assert_eq!(
        ProfileError::AttributeNotFound(Keyword::PageUrl).message(),
        "expected :page/url".to_string()
    );
    assert_eq!(
        ProfileError::AttributeNotFound(Keyword::VisitPage).message(),
        "expected :visit/page".to_string()
    );
    assert_eq!(
        ProfileError::AttributeNotFound(Keyword::VisitWhen).message(),
        "expected :visit/when".to_string()
    );
    assert_eq!(
        ProfileError::PageNotUnique.message(),
        "got more than single 'page' for 'url'".to_string()
    );
    assert_eq!(
        ProfileError::TempidNotResolved(TempName::Page).message(),
        "expected 'page' in tempids".to_string()
    );
    assert_eq!(
        ProfileError::TempidNotResolved(TempName::Visit).message(),
        "expected 'visit' in tempids".to_string()
    );
    assert_eq!(
        ProfileError::TempidNotResolved(TempName::VisitId).message(),
        "expected 'visitid' in tempids".to_string()
    );
}
