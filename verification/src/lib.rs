//! Recording of browsing history — pages visited, and visit events — into a
//! transactional attribute store.
//!
//! The store is modeled in this crate: entities are integer ids with typed
//! attribute values (datoms), written inside transactions whose staged
//! assertions use transaction-scoped placeholder ids, and whose effects
//! reach the store only at commit. The recording logic resolves a url to its
//! canonical page entity — creating it when absent, reusing it when present —
//! and appends a visit event referencing that page, all in one transaction.

use vstd::prelude::*;

pub mod error;
pub mod extern_result;
pub mod model;
pub mod store;
pub mod utils;
pub mod vocab;

use crate::error::{error_message, ProfileError, TempName};
use crate::extern_result::{decimal_text, ExternResult};
use crate::model::{
    initialize_model, initialized, lemma_apply_page_create, lemma_apply_record,
    lemma_apply_visit, lemma_entids_distinct, lemma_initialize_props, lemma_named_entry_resolves,
    lemma_unique_bound, page_entids, profile_definition_attrs, profile_schema_coherent,
    record_visit_model, result_matches, StoreModel, TermModel, TermValueModel, ValueModel, wf,
    with_tx,
};
use crate::store::{ids_model, Store, TermBuilder, TypedValue};
use crate::utils::{Timespec, ToTypedValue};
use crate::vocab::{Attribute, AttributeBuilder, Definition, Keyword, Unique, ValueType};

verus! {

/// The profile store's surface: a schema initializer and the visit
/// recorders. `model` is the store's mathematical state, and `inv` its
/// validity, which every operation preserves.
pub trait FenixProfile {
    spec fn inv(&self) -> bool;

    spec fn model(&self) -> StoreModel;

    /// Idempotently ensure the profile vocabulary at its current version.
    fn initialize(&mut self) -> (r: Result<(), ProfileError>)
        requires
            old(self).inv(),
            old(self).model().next_e + 5 <= i64::MAX,
        ensures
            final(self).inv(),
            r is Ok,
            final(self).model() == initialize_model(old(self).model()),
            profile_schema_coherent(old(self).model()) ==> profile_schema_coherent(
                final(self).model(),
            ) && initialized(final(self).model()),
    ;

    /// Record one visit: resolve the canonical page for `url` — creating it
    /// when absent — then append a visit referencing it at instant `when`
    /// (microseconds since the epoch), all in one transaction. Returns the
    /// new visit's entity id; on failure the store is left unchanged.
    fn record_visit_via_builders(&mut self, url: String, when: i64) -> (r: Result<
        i64,
        ProfileError,
    >)
        requires
            old(self).inv(),
            profile_schema_coherent(old(self).model()),
            old(self).model().next_e + 2 <= i64::MAX,
        ensures
            final(self).inv(),
            profile_schema_coherent(final(self).model()),
            final(self).model() == record_visit_model(old(self).model(), url@, when as int).0,
            result_matches(r, record_visit_model(old(self).model(), url@, when as int).1),
    ;

    /// Record one visit by staging the whole write in a single submission,
    /// letting the store's upsert resolution find or create the page. Same
    /// contract as `record_visit_via_builders`.
    fn record_visit_via_transact(&mut self, url: String, when: i64) -> (r: Result<
        i64,
        ProfileError,
    >)
        requires
            old(self).inv(),
            profile_schema_coherent(old(self).model()),
            old(self).model().next_e + 2 <= i64::MAX,
        ensures
            final(self).inv(),
            profile_schema_coherent(final(self).model()),
            final(self).model() == record_visit_model(old(self).model(), url@, when as int).0,
            result_matches(r, record_visit_model(old(self).model(), url@, when as int).1),
    ;
}

/// The profile vocabulary definition: name, version, and the declared
/// attributes, in order.
pub fn profile_definition() -> (d: Definition)
    ensures
        d.name == Keyword::FenixProfile,
        d.version == 1,
        d.attributes@ == profile_definition_attrs(),
{
    let mut attributes: Vec<(Keyword, Attribute)> = Vec::new();
    attributes.push(
        (
            Keyword::PageUrl,
            AttributeBuilder::default().value_type(ValueType::Text).unique(
                Unique::Identity,
            ).index(true).fulltext(true).multival(false).build(),
        ),
    );
    attributes.push(
        (
            Keyword::VisitPage,
            AttributeBuilder::default().value_type(ValueType::Ref).multival(false).build(),
        ),
    );
    attributes.push(
        (
            Keyword::VisitWhen,
            AttributeBuilder::default().value_type(ValueType::Instant).multival(false).build(),
        ),
    );
    attributes.push(
        (
            Keyword::UrlMetaVisit,
            AttributeBuilder::default().value_type(ValueType::Ref).multival(false).build(),
        ),
    );
    attributes.push(
        (
            Keyword::UrlMetaTitle,
            AttributeBuilder::default().value_type(ValueType::Text).multival(false).fulltext(
                true,
            ).index(true).build(),
        ),
    );
    proof {
        assert(attributes@ =~= profile_definition_attrs());
    }
    Definition { name: Keyword::FenixProfile, version: 1, attributes }
}

impl FenixProfile for Store {
    open spec fn inv(&self) -> bool {
        wf(self@)
    }

    open spec fn model(&self) -> StoreModel {
        self@
    }

    fn initialize(&mut self) -> (r: Result<(), ProfileError>) {
        let ghost m0 = self@;
        let mut in_progress = self.begin_transaction();
        let definition = profile_definition();
        proof {
            lemma_initialize_props(m0);
        }
        match in_progress.ensure_vocabulary(&*self, &definition) {
            Ok(()) => {},
            Err(e) => {
                proof {
                    assert(false);
                }
                return Err(e);
            },
        }
        match in_progress.commit(self) {
            Ok(()) => Ok(()),
            Err(e) => {
                proof {
                    assert(false);
                }
                Err(e)
            },
        }
    }

    fn record_visit_via_builders(&mut self, url: String, when: i64) -> (r: Result<
        i64,
        ProfileError,
    >) {
        let ghost m0 = self@;
        let ghost u = url@;
        let mut transaction = self.begin_transaction();

        // Look up 'page' by 'url', and insert it if necessary.
        let rows = match transaction.q_once_pages(&*self, &url) {
            Ok(rows) => rows,
            Err(e) => {
                return Err(e);
            },
        };
        proof {
            lemma_named_entry_resolves(m0, Keyword::PageUrl);
            lemma_unique_bound(
                m0,
                crate::model::entid_of(m0, Keyword::PageUrl).unwrap(),
                ValueModel::Text(u),
            );
            assert(rows@.len() == page_entids(m0, u).len());
        }
        let page_e: i64;
        let ghost mmid: StoreModel;
        if rows.len() == 0 {
            let urla = match transaction.get_entid(&*self, Keyword::PageUrl) {
                Some(a) => a,
                None => {
                    proof {
                        assert(false);
                    }
                    return Err(ProfileError::AttributeNotFound(Keyword::PageUrl));
                },
            };
            let mut page_builder = TermBuilder::new();
            let page_tempid = page_builder.named_tempid("page");
            page_builder.add(page_tempid, urla, TypedValue::Text(url));
            proof {
                assert(page_builder@.terms =~= seq![
                    TermModel {
                        t: 0,
                        a: urla as int,
                        v: TermValueModel::Val(ValueModel::Text(u)),
                    },
                ]);
                lemma_apply_page_create(m0, urla as int, u);
                assert(Seq::new(1nat, |k: int| None::<int>) =~= seq![None::<int>]);
            }
            let report = match transaction.transact_builder(&*self, page_builder) {
                Ok(rep) => rep,
                Err(e) => {
                    proof {
                        assert(false);
                    }
                    return Err(e);
                },
            };
            page_e = match report.get(page_tempid) {
                Some(e) => e,
                None => {
                    proof {
                        assert(false);
                    }
                    return Err(ProfileError::TempidNotResolved(TempName::Page));
                },
            };
            proof {
                mmid = with_tx(m0, transaction@);
                assert(page_e as int == m0.next_e);
                assert(mmid.schema == m0.schema);
            }
        } else if rows.len() > 1 {
            // Structurally impossible under the uniqueness constraint; kept
            // as a defensive check.
            proof {
                assert(false);
            }
            return Err(ProfileError::PageNotUnique);
        } else {
            page_e = rows[0];
            proof {
                mmid = with_tx(m0, transaction@);
                assert(ids_model(rows@)[0] == page_e as int);
                assert(page_e as int == page_entids(m0, u)[0]);
                assert(mmid =~~= m0);
            }
        }

        // Finally, insert the visit.
        let vpa = match transaction.get_entid(&*self, Keyword::VisitPage) {
            Some(a) => a,
            None => {
                return Err(ProfileError::AttributeNotFound(Keyword::VisitPage));
            },
        };
        let vwa = match transaction.get_entid(&*self, Keyword::VisitWhen) {
            Some(a) => a,
            None => {
                return Err(ProfileError::AttributeNotFound(Keyword::VisitWhen));
            },
        };
        let mut visit_builder = TermBuilder::new();
        let temp_visit_e = visit_builder.named_tempid("visit");
        visit_builder.add(temp_visit_e, vpa, TypedValue::Ref(page_e));
        visit_builder.add(temp_visit_e, vwa, TypedValue::instant(when));
        proof {
            assert(visit_builder@.terms =~= seq![
                TermModel {
                    t: 0,
                    a: vpa as int,
                    v: TermValueModel::Val(ValueModel::Ref(page_e as int)),
                },
                TermModel {
                    t: 0,
                    a: vwa as int,
                    v: TermValueModel::Val(ValueModel::Instant(when as int)),
                },
            ]);
            assert(with_tx(m0, transaction@) == mmid);
            assert(0 <= page_e as int && (page_e as int) < mmid.next_e) by {
                if page_entids(m0, u).len() == 1 {
                    crate::model::lemma_lookup_vs_matching(
                        m0.datoms,
                        crate::model::entid_of(m0, Keyword::PageUrl).unwrap(),
                        ValueModel::Text(u),
                    );
                    crate::model::lemma_lookup_unique_means(
                        m0.datoms,
                        crate::model::entid_of(m0, Keyword::PageUrl).unwrap(),
                        ValueModel::Text(u),
                    );
                    let pd = crate::model::DatomModel {
                        e: page_e as int,
                        a: crate::model::entid_of(m0, Keyword::PageUrl).unwrap(),
                        v: ValueModel::Text(u),
                    };
                    let kk = choose|kk: int| 0 <= kk < m0.datoms.len() && m0.datoms[kk] == pd;
                    assert(0 <= m0.datoms[kk].e < m0.next_e);
                }
            }
            lemma_named_entry_resolves(mmid, Keyword::VisitPage);
            lemma_named_entry_resolves(mmid, Keyword::VisitWhen);
            lemma_entids_distinct(mmid, Keyword::VisitPage, Keyword::VisitWhen);
            lemma_apply_visit(mmid, vpa as int, vwa as int, page_e as int, when as int);
            assert(Seq::new(1nat, |k: int| None::<int>) =~= seq![None::<int>]);
        }
        let report = match transaction.transact_builder(&*self, visit_builder) {
            Ok(rep) => rep,
            Err(e) => {
                proof {
                    assert(false);
                }
                return Err(e);
            },
        };
        let visit_e = match report.get(temp_visit_e) {
            Some(e) => e,
            None => {
                proof {
                    assert(false);
                }
                return Err(ProfileError::TempidNotResolved(TempName::Visit));
            },
        };
        let committed = transaction.commit(self);
        proof {
            let (m2, res) = record_visit_model(m0, u, when as int);
            assert(self@ =~~= m2);
            assert(visit_e as int == res.unwrap());
        }
        match committed {
            Ok(()) => Ok(visit_e),
            Err(e) => {
                proof {
                    assert(false);
                }
                Err(e)
            },
        }
    }

    fn record_visit_via_transact(&mut self, url: String, when: i64) -> (r: Result<
        i64,
        ProfileError,
    >) {
        let ghost m0 = self@;
        let ghost u = url@;
        let mut transaction = self.begin_transaction();
        let urla = match transaction.get_entid(&*self, Keyword::PageUrl) {
            Some(a) => a,
            None => {
                return Err(ProfileError::AttributeNotFound(Keyword::PageUrl));
            },
        };
        let vpa = match transaction.get_entid(&*self, Keyword::VisitPage) {
            Some(a) => a,
            None => {
                return Err(ProfileError::AttributeNotFound(Keyword::VisitPage));
            },
        };
        let vwa = match transaction.get_entid(&*self, Keyword::VisitWhen) {
            Some(a) => a,
            None => {
                return Err(ProfileError::AttributeNotFound(Keyword::VisitWhen));
            },
        };
        let mut builder = TermBuilder::new();
        let page = builder.named_tempid("page");
        let visitid = builder.named_tempid("visitid");
        builder.add(page, urla, TypedValue::Text(url));
        builder.add_temp(visitid, vpa, page);
        builder.add(visitid, vwa, TypedValue::instant(when));
        proof {
            assert(builder@.terms =~= seq![
                TermModel {
                    t: 0,
                    a: urla as int,
                    v: TermValueModel::Val(ValueModel::Text(u)),
                },
                TermModel { t: 1, a: vpa as int, v: TermValueModel::Temp(0) },
                TermModel {
                    t: 1,
                    a: vwa as int,
                    v: TermValueModel::Val(ValueModel::Instant(when as int)),
                },
            ]);
            lemma_named_entry_resolves(m0, Keyword::PageUrl);
            lemma_named_entry_resolves(m0, Keyword::VisitPage);
            lemma_named_entry_resolves(m0, Keyword::VisitWhen);
            lemma_entids_distinct(m0, Keyword::VisitPage, Keyword::VisitWhen);
            lemma_unique_bound(m0, urla as int, ValueModel::Text(u));
            lemma_apply_record(m0, urla as int, vpa as int, vwa as int, u, when as int);
            assert(Seq::new(2nat, |k: int| None::<int>) =~= seq![None::<int>, None::<int>]);
        }
        let res = match transaction.transact_builder(&*self, builder) {
            Ok(rep) => rep,
            Err(e) => {
                proof {
                    assert(false);
                }
                return Err(e);
            },
        };
        let visit_e = match res.get(visitid) {
            Some(e) => e,
            None => {
                proof {
                    assert(false);
                }
                return Err(ProfileError::TempidNotResolved(TempName::VisitId));
            },
        };
        let committed = transaction.commit(self);
        proof {
            let (m2, result) = record_visit_model(m0, u, when as int);
            assert(self@ =~~= m2);
            assert(visit_e as int == result.unwrap());
        }
        match committed {
            Ok(()) => Ok(visit_e),
            Err(e) => {
                proof {
                    assert(false);
                }
                Err(e)
            },
        }
    }
}

/// Boundary entry point: record a visit for `url` at `when`, given in whole
/// seconds since the epoch and widened to microseconds internally. The
/// outcome is marshalled into a boundary-safe result: the new visit's id in
/// decimal under `ok`, or the failure's message under `err`, never both.
pub fn fenix_profile_record_visit(manager: &mut Store, url: String, when: i64) -> (r: ExternResult)
    requires
        old(manager).inv(),
        profile_schema_coherent(old(manager)@),
        old(manager)@.next_e + 2 <= i64::MAX,
        -9_223_372_036_854 <= when <= 9_223_372_036_854,
    ensures
        final(manager).inv(),
        profile_schema_coherent(final(manager)@),
        r.well_formed(),
        ({
            let (m2, res) = record_visit_model(old(manager)@, url@, when * 1_000_000);
            &&& final(manager)@ == m2
            &&& match res {
                Ok(v) => r.err is None && (r.ok matches Some(s) && s@ == decimal_text(v)),
                Err(e) => r.ok is None && (r.err matches Some(s) && s@ == error_message(e)),
            }
        }),
{
    let when_ts = Timespec::new(when, 0);
    let dt = match when_ts.to_typed_value() {
        TypedValue::Instant(micros) => micros,
        _ => 0,
    };
    proof {
        assert(dt == when * 1_000_000);
    }
    let result = manager.record_visit_via_builders(url, dt);
    ExternResult::from_result(result)
}

} // verus!
