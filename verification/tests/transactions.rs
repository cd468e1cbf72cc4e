use fenix_profile::error::ProfileError;
use fenix_profile::store::{Store, TermBuilder, TypedValue};
use fenix_profile::vocab::Keyword;
use fenix_profile::FenixProfile;

fn initialized() -> Store {
    let mut db = Store::new();
    db.initialize().expect("ran initialization");
    db
}

#[test]
fn dropped_transaction_leaves_no_rows() {
    let mut db = initialized();
    let mut tx = db.begin_transaction();
    let urla = tx.get_entid(&db, Keyword::PageUrl).expect("url attribute");

    let mut builder = TermBuilder::new();
    let page = builder.named_tempid("page");
    builder.add(page, urla, TypedValue::Text("https://example.org".to_string()));
    let report = tx.transact_builder(&db, builder).expect("staged page");
    assert!(report.get(page).is_some());

    // Simulated failure between page creation and visit creation: the
    // transaction is dropped without commit, and nothing was persisted.
    drop(tx);
    assert_eq!(0, db.all_page_urls().len());
    assert_eq!(0, db.all_visit_entids().len());
}

#[test]
fn committed_transaction_persists_rows() {
    let mut db = initialized();
    let mut tx = db.begin_transaction();
    let urla = tx.get_entid(&db, Keyword::PageUrl).expect("url attribute");

    let mut builder = TermBuilder::new();
    let page = builder.named_tempid("page");
    builder.add(page, urla, TypedValue::Text("https://example.org".to_string()));
    tx.transact_builder(&db, builder).expect("staged page");
    tx.commit(&mut db).expect("committed");
    assert_eq!(1, db.all_page_urls().len());
}

#[test]
fn unique_value_cannot_move_to_a_second_entity() {
    let mut db = initialized();
    db.record_visit_via_builders("https://example.org".to_string(), 1_000_000)
        .expect("recorded visit");

    let mut tx = db.begin_transaction();
    let urla = tx.get_entid(&db, Keyword::PageUrl).expect("url attribute");
    let title = tx.get_entid(&db, Keyword::UrlMetaTitle).expect("title attribute");

    let mut builder = TermBuilder::new();
    let other = builder.named_tempid("other");
    builder.add(other, title, TypedValue::Text("a title".to_string()));
    builder.add(other, urla, TypedValue::Text("https://example.org".to_string()));
    let r = tx.transact_builder(&db, builder);
    assert_eq!(r.err(), Some(ProfileError::UniqueConflict));
}

#[test]
fn single_valued_attribute_rejects_a_second_value() {
    let mut db = initialized();
    let mut tx = db.begin_transaction();
    let urla = tx.get_entid(&db, Keyword::PageUrl).expect("url attribute");

    let mut builder = TermBuilder::new();
    let page = builder.named_tempid("page");
    builder.add(page, urla, TypedValue::Text("https://a.example".to_string()));
    builder.add(page, urla, TypedValue::Text("https://b.example".to_string()));
    let r = tx.transact_builder(&db, builder);
    assert_eq!(r.err(), Some(ProfileError::CardinalityConflict));
}

#[test]
fn reference_to_unknown_entity_is_rejected() {
    let mut db = initialized();
    let mut tx = db.begin_transaction();
    let vpa = tx.get_entid(&db, Keyword::VisitPage).expect("page-ref attribute");

    let mut builder = TermBuilder::new();
    let visit = builder.named_tempid("visit");
    builder.add(visit, vpa, TypedValue::Ref(9_999));
    let r = tx.transact_builder(&db, builder);
    assert_eq!(r.err(), Some(ProfileError::InvalidRef));
}

#[test]
fn unknown_attribute_is_rejected() {
    let mut db = initialized();
    let mut tx = db.begin_transaction();

    let mut builder = TermBuilder::new();
    let page = builder.named_tempid("page");
    builder.add(page, 424_242, TypedValue::Text("https://example.org".to_string()));
    let r = tx.transact_builder(&db, builder);
    assert_eq!(r.err(), Some(ProfileError::UnknownAttribute));
}

#[test]
fn unused_placeholder_stays_unresolved() {
    let mut db = initialized();
    let mut tx = db.begin_transaction();
    let urla = tx.get_entid(&db, Keyword::PageUrl).expect("url attribute");

    let mut builder = TermBuilder::new();
    let page = builder.named_tempid("page");
    let unused = builder.named_tempid("spare");
    builder.add(page, urla, TypedValue::Text("https://example.org".to_string()));
    let report = tx.transact_builder(&db, builder).expect("staged page");
    assert!(report.get(page).is_some());
    assert!(report.get(unused).is_none());
}

#[test]
fn failed_submission_leaves_transaction_reusable() {
    let mut db = initialized();
    let mut tx = db.begin_transaction();
    let urla = tx.get_entid(&db, Keyword::PageUrl).expect("url attribute");

    let mut bad = TermBuilder::new();
    let page = bad.named_tempid("page");
    bad.add(page, 424_242, TypedValue::Text("https://example.org".to_string()));
    assert!(tx.transact_builder(&db, bad).is_err());

    let mut good = TermBuilder::new();
    let page = good.named_tempid("page");
    good.add(page, urla, TypedValue::Text("https://example.org".to_string()));
    tx.transact_builder(&db, good).expect("staged page");
    tx.commit(&mut db).expect("committed");
    assert_eq!(1, db.all_page_urls().len());
}
