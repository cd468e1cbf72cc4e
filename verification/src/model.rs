//! Mathematical model of the store and of the recording transitions.
//!
//! A store is modeled as a sequence of datoms — (entity, attribute, value)
//! triples — together with its installed schema, its vocabulary bookkeeping,
//! and the next entity id it will assign. Transactions are modeled as the
//! staged additions they would commit. The meaning of submitting staged
//! assertions is given by `apply_terms`, and the recording operation by
//! `record_visit_model`.

use vstd::prelude::*;
use crate::error::ProfileError;
use crate::vocab::{Attribute, Keyword, Unique, ValueType};

verus! {

/// Model of a stored value: a reference to an entity, a text value, or an
/// instant in microseconds.
#[verifier::ext_equal]
pub enum ValueModel {
    Ref(int),
    Text(Seq<char>),
    Instant(int),
}

/// Model of one datom: entity, attribute entity id, value.
#[verifier::ext_equal]
pub struct DatomModel {
    pub e: int,
    pub a: int,
    pub v: ValueModel,
}

/// Model of one installed schema attribute.
#[verifier::ext_equal]
pub struct SchemaEntryModel {
    pub name: Keyword,
    pub e: int,
    pub attribute: Attribute,
}

/// Model of one vocabulary bookkeeping record.
#[verifier::ext_equal]
pub struct VocabModel {
    pub name: Keyword,
    pub version: int,
}

/// Model of a whole store.
#[verifier::ext_equal]
pub struct StoreModel {
    pub vocabs: Seq<VocabModel>,
    pub schema: Seq<SchemaEntryModel>,
    pub next_e: int,
    pub datoms: Seq<DatomModel>,
}

/// Model of an open transaction: what it would add to its base store.
/// Staged vocabulary records go in front of the base ones, so that a
/// re-ensured vocabulary's version wins the first-match lookup.
#[verifier::ext_equal]
pub struct TxModel {
    pub vocabs_staged: Seq<VocabModel>,
    pub schema_staged: Seq<SchemaEntryModel>,
    pub next_e: int,
    pub added: Seq<DatomModel>,
}

/// The store a transaction reads and would produce on commit: its base store
/// extended with everything staged.
pub open spec fn with_tx(base: StoreModel, tx: TxModel) -> StoreModel {
    StoreModel {
        vocabs: tx.vocabs_staged + base.vocabs,
        schema: base.schema + tx.schema_staged,
        next_e: tx.next_e,
        datoms: base.datoms + tx.added,
    }
}

/// An empty transaction on top of a store with next id `next_e`.
pub open spec fn empty_tx(next_e: int) -> TxModel {
    TxModel {
        vocabs_staged: Seq::empty(),
        schema_staged: Seq::empty(),
        next_e: next_e,
        added: Seq::empty(),
    }
}

// ---------------------------------------------------------------------------
// First-match lookups.

/// The version under which `name` is recorded, by first match.
pub open spec fn version_of(vs: Seq<VocabModel>, name: Keyword) -> Option<int>
    decreases vs.len(),
{
    if vs.len() == 0 {
        None
    } else if vs[0].name == name {
        Some(vs[0].version)
    } else {
        version_of(vs.drop_first(), name)
    }
}

/// The schema entry installed under `name`, by first match.
pub open spec fn entry_for_name(schema: Seq<SchemaEntryModel>, name: Keyword) -> Option<SchemaEntryModel>
    decreases schema.len(),
{
    if schema.len() == 0 {
        None
    } else if schema[0].name == name {
        Some(schema[0])
    } else {
        entry_for_name(schema.drop_first(), name)
    }
}

/// The schema entry installed under attribute entity id `a`, by first match.
pub open spec fn entry_for_entid(schema: Seq<SchemaEntryModel>, a: int) -> Option<SchemaEntryModel>
    decreases schema.len(),
{
    if schema.len() == 0 {
        None
    } else if schema[0].e == a {
        Some(schema[0])
    } else {
        entry_for_entid(schema.drop_first(), a)
    }
}

/// The entity id the store resolved attribute `name` to, if installed.
pub open spec fn entid_of(m: StoreModel, name: Keyword) -> Option<int> {
    match entry_for_name(m.schema, name) {
        Some(entry) => Some(entry.e),
        None => None,
    }
}

/// The declared shape of the attribute with entity id `a`, if installed.
pub open spec fn attr_of(m: StoreModel, a: int) -> Option<Attribute> {
    match entry_for_entid(m.schema, a) {
        Some(entry) => Some(entry.attribute),
        None => None,
    }
}

/// The first entity owning value `v` under attribute `a`, if any.
pub open spec fn lookup_unique(datoms: Seq<DatomModel>, a: int, v: ValueModel) -> Option<int>
    decreases datoms.len(),
{
    if datoms.len() == 0 {
        None
    } else if datoms[0].a == a && datoms[0].v == v {
        Some(datoms[0].e)
    } else {
        lookup_unique(datoms.drop_first(), a, v)
    }
}

/// The first value entity `e` holds under attribute `a`, if any.
pub open spec fn lookup_ea(datoms: Seq<DatomModel>, e: int, a: int) -> Option<ValueModel>
    decreases datoms.len(),
{
    if datoms.len() == 0 {
        None
    } else if datoms[0].e == e && datoms[0].a == a {
        Some(datoms[0].v)
    } else {
        lookup_ea(datoms.drop_first(), e, a)
    }
}

/// The entities holding value `v` under attribute `a`, in datom order.
pub open spec fn matching_entids(datoms: Seq<DatomModel>, a: int, v: ValueModel) -> Seq<int>
    decreases datoms.len(),
{
    if datoms.len() == 0 {
        Seq::empty()
    } else {
        matching_entids(datoms.drop_last(), a, v) + if datoms.last().a == a && datoms.last().v == v {
            seq![datoms.last().e]
        } else {
            Seq::empty()
        }
    }
}

/// The values held under attribute `a`, in datom order.
pub open spec fn matching_values(datoms: Seq<DatomModel>, a: int) -> Seq<ValueModel>
    decreases datoms.len(),
{
    if datoms.len() == 0 {
        Seq::empty()
    } else {
        matching_values(datoms.drop_last(), a) + if datoms.last().a == a {
            seq![datoms.last().v]
        } else {
            Seq::empty()
        }
    }
}

/// The entities holding anything under attribute `a`, in datom order.
pub open spec fn matching_subjects(datoms: Seq<DatomModel>, a: int) -> Seq<int>
    decreases datoms.len(),
{
    if datoms.len() == 0 {
        Seq::empty()
    } else {
        matching_subjects(datoms.drop_last(), a) + if datoms.last().a == a {
            seq![datoms.last().e]
        } else {
            Seq::empty()
        }
    }
}

// ---------------------------------------------------------------------------
// Well-formedness.

/// Well-formedness of a store: entity ids are below the allocation cursor,
/// every asserted attribute is installed, references point below the cursor,
/// no datom repeats, unique attributes hold each value on at most one
/// entity, and single-valued attributes hold at most one value per entity.
pub open spec fn wf(m: StoreModel) -> bool {
    &&& 0 <= m.next_e
    &&& forall|i: int| 0 <= i < m.schema.len() ==> 0 <= (#[trigger] m.schema[i]).e < m.next_e
    &&& forall|i: int, j: int|
        0 <= i < j < m.schema.len() ==> (#[trigger] m.schema[i]).e != (#[trigger] m.schema[j]).e
    &&& forall|i: int, j: int|
        0 <= i < j < m.schema.len() ==> (#[trigger] m.schema[i]).name != (#[trigger] m.schema[j]).name
    &&& forall|i: int| 0 <= i < m.datoms.len() ==> 0 <= (#[trigger] m.datoms[i]).e < m.next_e
    &&& forall|i: int| 0 <= i < m.datoms.len() ==> attr_of(m, (#[trigger] m.datoms[i]).a) is Some
    &&& forall|i: int|
        0 <= i < m.datoms.len() && (#[trigger] m.datoms[i]).v is Ref ==> 0 <= m.datoms[i].v->Ref_0
            < m.next_e
    &&& forall|i: int, j: int|
        0 <= i < j < m.datoms.len() ==> (#[trigger] m.datoms[i]) != (#[trigger] m.datoms[j])
    &&& forall|i: int, j: int|
        0 <= i < j < m.datoms.len() && (#[trigger] m.datoms[i]).a == (#[trigger] m.datoms[j]).a
            && attr_of(m, m.datoms[i].a).unwrap().is_unique() && m.datoms[i].v == m.datoms[j].v
            ==> false
    &&& forall|i: int, j: int|
        0 <= i < j < m.datoms.len() && (#[trigger] m.datoms[i]).e == (#[trigger] m.datoms[j]).e
            && m.datoms[i].a == m.datoms[j].a && !attr_of(m, m.datoms[i].a).unwrap().multival
            ==> m.datoms[i].v == m.datoms[j].v
}

/// Validity of a placeholder resolution table against a store: every resolved
/// id is an allocated entity id.
pub open spec fn binds_wf(m: StoreModel, binds: Seq<Option<int>>) -> bool {
    forall|j: int|
        0 <= j < binds.len() && (#[trigger] binds[j]) is Some ==> 0 <= binds[j].unwrap() < m.next_e
}

// ---------------------------------------------------------------------------
// Staged assertions and their submission semantics.

/// Model of the value slot of a staged assertion: a concrete value, or a
/// placeholder standing for an entity resolved in the same submission.
#[verifier::ext_equal]
pub enum TermValueModel {
    Val(ValueModel),
    Temp(int),
}

/// Model of one staged assertion: placeholder subject, attribute entity id,
/// value slot.
#[verifier::ext_equal]
pub struct TermModel {
    pub t: int,
    pub a: int,
    pub v: TermValueModel,
}

/// Model of a builder's staged work: how many placeholders it allocated and
/// the assertions staged against them.
#[verifier::ext_equal]
pub struct BuildModel {
    pub ntemp: int,
    pub terms: Seq<TermModel>,
}

/// Whether staged work only speaks of placeholders the builder allocated.
pub open spec fn build_wf(b: BuildModel) -> bool {
    &&& 0 <= b.ntemp
    &&& forall|i: int|
        0 <= i < b.terms.len() ==> 0 <= (#[trigger] b.terms[i]).t < b.ntemp
    &&& forall|i: int|
        0 <= i < b.terms.len() && (#[trigger] b.terms[i]).v is Temp ==> 0 <= b.terms[i].v->Temp_0
            < b.ntemp
}

/// The effect of one staged assertion on a store and a placeholder
/// resolution table.
///
/// The subject placeholder is resolved first: to its earlier resolution if it
/// has one; otherwise, when the assertion gives a unique attribute a value an
/// existing entity already owns, to that entity; otherwise to a fresh entity
/// id. A placeholder in value position is then resolved the same way, always
/// fresh when still unresolved. Re-asserting a datom that is already present
/// is a no-op; giving a unique attribute's owned value to a second entity, or
/// a single-valued attribute a second value, fails the submission.
pub open spec fn apply_one(m: StoreModel, binds: Seq<Option<int>>, t: TermModel) -> Result<
    (StoreModel, Seq<Option<int>>),
    ProfileError,
> {
    if !(0 <= t.t < binds.len()) {
        Err(ProfileError::UnknownAttribute)
    } else {
        match attr_of(m, t.a) {
            None => Err(ProfileError::UnknownAttribute),
            Some(attr) => {
                let (m1, binds1, e) = match binds[t.t] {
                    Some(e0) => (m, binds, e0),
                    None => {
                        let upsert = match t.v {
                            TermValueModel::Val(v) => if attr.is_unique() {
                                lookup_unique(m.datoms, t.a, v)
                            } else {
                                None
                            },
                            TermValueModel::Temp(_) => None,
                        };
                        match upsert {
                            Some(e0) => (m, binds.update(t.t, Some(e0)), e0),
                            None => (
                                StoreModel { next_e: m.next_e + 1, ..m },
                                binds.update(t.t, Some(m.next_e)),
                                m.next_e,
                            ),
                        }
                    },
                };
                let (m2, binds2, vres) = match t.v {
                    TermValueModel::Val(v) => (m1, binds1, v),
                    TermValueModel::Temp(j) => if !(0 <= j < binds1.len()) {
                        (m1, binds1, ValueModel::Ref(0))
                    } else {
                        match binds1[j] {
                            Some(ej) => (m1, binds1, ValueModel::Ref(ej)),
                            None => (
                                StoreModel { next_e: m1.next_e + 1, ..m1 },
                                binds1.update(j, Some(m1.next_e)),
                                ValueModel::Ref(m1.next_e),
                            ),
                        }
                    },
                };
                let d = DatomModel { e: e, a: t.a, v: vres };
                if vres is Ref && !(0 <= vres->Ref_0 < m2.next_e) {
                    Err(ProfileError::InvalidRef)
                } else if m2.datoms.contains(d) {
                    Ok((m2, binds2))
                } else if !attr.multival && lookup_ea(m2.datoms, e, t.a) is Some {
                    Err(ProfileError::CardinalityConflict)
                } else if attr.is_unique() && lookup_unique(m2.datoms, t.a, vres) is Some {
                    Err(ProfileError::UniqueConflict)
                } else {
                    Ok((StoreModel { datoms: m2.datoms.push(d), ..m2 }, binds2))
                }
            },
        }
    }
}

/// The effect of submitting staged assertions in order. A failure leaves the
/// submission without effect.
pub open spec fn apply_terms(m: StoreModel, binds: Seq<Option<int>>, terms: Seq<TermModel>) -> Result<
    (StoreModel, Seq<Option<int>>),
    ProfileError,
>
    decreases terms.len(),
{
    if terms.len() == 0 {
        Ok((m, binds))
    } else {
        match apply_one(m, binds, terms[0]) {
            Err(e) => Err(e),
            Ok((m1, binds1)) => apply_terms(m1, binds1, terms.drop_first()),
        }
    }
}

// ---------------------------------------------------------------------------
// Vocabulary installation.

/// Installing the attributes of a definition, in order, skipping names that
/// are already in the schema, each new one under the next fresh entity id.
pub open spec fn install_missing(
    schema: Seq<SchemaEntryModel>,
    attrs: Seq<(Keyword, Attribute)>,
    next_e: int,
) -> (Seq<SchemaEntryModel>, int)
    decreases attrs.len(),
{
    if attrs.len() == 0 {
        (schema, next_e)
    } else {
        let (name, attribute) = attrs[0];
        if entry_for_name(schema, name) is Some {
            install_missing(schema, attrs.drop_first(), next_e)
        } else {
            install_missing(
                schema.push(SchemaEntryModel { name: name, e: next_e, attribute: attribute }),
                attrs.drop_first(),
                next_e + 1,
            )
        }
    }
}

/// The effect of ensuring a vocabulary: a no-op when the recorded version
/// already satisfies the requested one, otherwise the missing attributes are
/// installed and the version recorded.
pub open spec fn ensure_vocab_model(
    m: StoreModel,
    name: Keyword,
    version: int,
    attrs: Seq<(Keyword, Attribute)>,
) -> StoreModel {
    let satisfied = match version_of(m.vocabs, name) {
        Some(v) => v >= version,
        None => false,
    };
    if satisfied {
        m
    } else {
        let (schema2, next2) = install_missing(m.schema, attrs, m.next_e);
        StoreModel {
            vocabs: seq![VocabModel { name: name, version: version }] + m.vocabs,
            schema: schema2,
            next_e: next2,
            datoms: m.datoms,
        }
    }
}

// ---------------------------------------------------------------------------
// The profile vocabulary.

/// The declared shape of each profile attribute.
pub open spec fn profile_attribute(name: Keyword) -> Attribute {
    match name {
        Keyword::PageUrl => Attribute {
            value_type: ValueType::Text,
            unique: Some(Unique::Identity),
            index: true,
            fulltext: true,
            multival: false,
        },
        Keyword::VisitPage => Attribute {
            value_type: ValueType::Ref,
            unique: None,
            index: false,
            fulltext: false,
            multival: false,
        },
        Keyword::VisitWhen => Attribute {
            value_type: ValueType::Instant,
            unique: None,
            index: false,
            fulltext: false,
            multival: false,
        },
        Keyword::UrlMetaVisit => Attribute {
            value_type: ValueType::Ref,
            unique: None,
            index: false,
            fulltext: false,
            multival: false,
        },
        _ => Attribute {
            value_type: ValueType::Text,
            unique: None,
            index: true,
            fulltext: true,
            multival: false,
        },
    }
}

/// The attribute list of the profile vocabulary definition, in declaration
/// order.
pub open spec fn profile_definition_attrs() -> Seq<(Keyword, Attribute)> {
    seq![
        (Keyword::PageUrl, profile_attribute(Keyword::PageUrl)),
        (Keyword::VisitPage, profile_attribute(Keyword::VisitPage)),
        (Keyword::VisitWhen, profile_attribute(Keyword::VisitWhen)),
        (Keyword::UrlMetaVisit, profile_attribute(Keyword::UrlMetaVisit)),
        (Keyword::UrlMetaTitle, profile_attribute(Keyword::UrlMetaTitle)),
    ]
}

/// The effect of the schema initializer.
pub open spec fn initialize_model(m: StoreModel) -> StoreModel {
    ensure_vocab_model(m, Keyword::FenixProfile, 1, profile_definition_attrs())
}

/// Whether the attributes the recorder needs are installed.
pub open spec fn initialized(m: StoreModel) -> bool {
    &&& entid_of(m, Keyword::PageUrl) is Some
    &&& entid_of(m, Keyword::VisitPage) is Some
    &&& entid_of(m, Keyword::VisitWhen) is Some
}

// ---------------------------------------------------------------------------
// The recording transition.

/// The page entities recorded for `url`, in datom order.
pub open spec fn page_entids(m: StoreModel, url: Seq<char>) -> Seq<int> {
    match entid_of(m, Keyword::PageUrl) {
        Some(urla) => matching_entids(m.datoms, urla, ValueModel::Text(url)),
        None => Seq::empty(),
    }
}

/// The url values recorded on pages, in datom order.
pub open spec fn page_url_values(m: StoreModel) -> Seq<ValueModel> {
    match entid_of(m, Keyword::PageUrl) {
        Some(urla) => matching_values(m.datoms, urla),
        None => Seq::empty(),
    }
}

/// The visit entities, in datom order: the entities asserting a page
/// reference.
pub open spec fn all_visit_entids(m: StoreModel) -> Seq<int> {
    match entid_of(m, Keyword::VisitPage) {
        Some(vpa) => matching_subjects(m.datoms, vpa),
        None => Seq::empty(),
    }
}

/// The visit entities referencing page `p`, in datom order.
pub open spec fn visit_entids_for_page(m: StoreModel, p: int) -> Seq<int> {
    match entid_of(m, Keyword::VisitPage) {
        Some(vpa) => matching_entids(m.datoms, vpa, ValueModel::Ref(p)),
        None => Seq::empty(),
    }
}

/// The visit entities referencing the canonical page of `url`, by the first
/// recorded page when several exist.
pub open spec fn visit_entids_for_url(m: StoreModel, url: Seq<char>) -> Seq<int> {
    if page_entids(m, url).len() == 0 {
        Seq::empty()
    } else {
        visit_entids_for_page(m, page_entids(m, url)[0])
    }
}

// ---------------------------------------------------------------------------
// Lemmas about the lookups.

/// A first-match version lookup distributes over concatenation.
pub proof fn lemma_version_of_concat(s: Seq<VocabModel>, t: Seq<VocabModel>, name: Keyword)
    ensures
        version_of(s + t, name) == (match version_of(s, name) {
            Some(v) => Some(v),
            None => version_of(t, name),
        }),
    decreases s.len(),
{
    if s.len() == 0 {
        assert(s + t =~= t);
    } else {
        assert((s + t).drop_first() =~= s.drop_first() + t);
        lemma_version_of_concat(s.drop_first(), t, name);
    }
}

/// A first-match name lookup distributes over concatenation.
pub proof fn lemma_entry_for_name_concat(
    s: Seq<SchemaEntryModel>,
    t: Seq<SchemaEntryModel>,
    name: Keyword,
)
    ensures
        entry_for_name(s + t, name) == (match entry_for_name(s, name) {
            Some(entry) => Some(entry),
            None => entry_for_name(t, name),
        }),
    decreases s.len(),
{
    if s.len() == 0 {
        assert(s + t =~= t);
    } else {
        assert((s + t).drop_first() =~= s.drop_first() + t);
        lemma_entry_for_name_concat(s.drop_first(), t, name);
    }
}

/// A first-match entity id lookup distributes over concatenation.
pub proof fn lemma_entry_for_entid_concat(
    s: Seq<SchemaEntryModel>,
    t: Seq<SchemaEntryModel>,
    a: int,
)
    ensures
        entry_for_entid(s + t, a) == (match entry_for_entid(s, a) {
            Some(entry) => Some(entry),
            None => entry_for_entid(t, a),
        }),
    decreases s.len(),
{
    if s.len() == 0 {
        assert(s + t =~= t);
    } else {
        assert((s + t).drop_first() =~= s.drop_first() + t);
        lemma_entry_for_entid_concat(s.drop_first(), t, a);
    }
}

/// A first-match unique-value lookup distributes over concatenation.
pub proof fn lemma_lookup_unique_concat(
    s: Seq<DatomModel>,
    t: Seq<DatomModel>,
    a: int,
    v: ValueModel,
)
    ensures
        lookup_unique(s + t, a, v) == (match lookup_unique(s, a, v) {
            Some(e) => Some(e),
            None => lookup_unique(t, a, v),
        }),
    decreases s.len(),
{
    if s.len() == 0 {
        assert(s + t =~= t);
    } else {
        assert((s + t).drop_first() =~= s.drop_first() + t);
        lemma_lookup_unique_concat(s.drop_first(), t, a, v);
    }
}

/// A first-match entity-attribute lookup distributes over concatenation.
pub proof fn lemma_lookup_ea_concat(s: Seq<DatomModel>, t: Seq<DatomModel>, e: int, a: int)
    ensures
        lookup_ea(s + t, e, a) == (match lookup_ea(s, e, a) {
            Some(v) => Some(v),
            None => lookup_ea(t, e, a),
        }),
    decreases s.len(),
{
    if s.len() == 0 {
        assert(s + t =~= t);
    } else {
        assert((s + t).drop_first() =~= s.drop_first() + t);
        lemma_lookup_ea_concat(s.drop_first(), t, e, a);
    }
}

/// Collecting matching entities distributes over concatenation.
pub proof fn lemma_matching_entids_concat(
    s: Seq<DatomModel>,
    t: Seq<DatomModel>,
    a: int,
    v: ValueModel,
)
    ensures
        matching_entids(s + t, a, v) == matching_entids(s, a, v) + matching_entids(t, a, v),
    decreases t.len(),
{
    if t.len() == 0 {
        assert(s + t =~= s);
        assert(matching_entids(s, a, v) + matching_entids(t, a, v) =~= matching_entids(s, a, v));
    } else {
        assert((s + t).drop_last() =~= s + t.drop_last());
        assert((s + t).last() == t.last());
        lemma_matching_entids_concat(s, t.drop_last(), a, v);
        assert(matching_entids(s, a, v) + matching_entids(t, a, v) =~= (matching_entids(s, a, v)
            + matching_entids(t.drop_last(), a, v)) + if t.last().a == a && t.last().v == v {
            seq![t.last().e]
        } else {
            Seq::empty()
        });
    }
}

/// What a unique-value lookup's answer means: `None` means no datom matches,
/// and a hit names an entity that does own the value.
pub proof fn lemma_lookup_unique_means(datoms: Seq<DatomModel>, a: int, v: ValueModel)
    ensures
        match lookup_unique(datoms, a, v) {
            None => forall|i: int|
                0 <= i < datoms.len() ==> !((#[trigger] datoms[i]).a == a && datoms[i].v == v),
            Some(e) => datoms.contains(DatomModel { e: e, a: a, v: v }),
        },
    decreases datoms.len(),
{
    if datoms.len() > 0 {
        lemma_lookup_unique_means(datoms.drop_first(), a, v);
        if datoms[0].a == a && datoms[0].v == v {
            assert(datoms[0] == (DatomModel { e: datoms[0].e, a: a, v: v }));
        } else {
            match lookup_unique(datoms.drop_first(), a, v) {
                None => {
                    assert forall|i: int|
                        0 <= i < datoms.len() implies !((#[trigger] datoms[i]).a == a
                        && datoms[i].v == v) by {
                        if i > 0 {
                            assert(datoms.drop_first()[i - 1] == datoms[i]);
                        }
                    }
                },
                Some(e) => {
                    let d = DatomModel { e: e, a: a, v: v };
                    let k = choose|k: int|
                        0 <= k < datoms.drop_first().len() && datoms.drop_first()[k] == d;
                    assert(datoms[k + 1] == d);
                },
            }
        }
    }
}

/// What an entity-attribute lookup's answer means: `None` means the entity
/// holds nothing under the attribute, and a hit is a value it does hold.
pub proof fn lemma_lookup_ea_means(datoms: Seq<DatomModel>, e: int, a: int)
    ensures
        match lookup_ea(datoms, e, a) {
            None => forall|i: int|
                0 <= i < datoms.len() ==> !((#[trigger] datoms[i]).e == e && datoms[i].a == a),
            Some(v) => datoms.contains(DatomModel { e: e, a: a, v: v }),
        },
    decreases datoms.len(),
{
    if datoms.len() > 0 {
        lemma_lookup_ea_means(datoms.drop_first(), e, a);
        if datoms[0].e == e && datoms[0].a == a {
            assert(datoms[0] == (DatomModel { e: e, a: a, v: datoms[0].v }));
        } else {
            match lookup_ea(datoms.drop_first(), e, a) {
                None => {
                    assert forall|i: int|
                        0 <= i < datoms.len() implies !((#[trigger] datoms[i]).e == e
                        && datoms[i].a == a) by {
                        if i > 0 {
                            assert(datoms.drop_first()[i - 1] == datoms[i]);
                        }
                    }
                },
                Some(v) => {
                    let d = DatomModel { e: e, a: a, v: v };
                    let k = choose|k: int|
                        0 <= k < datoms.drop_first().len() && datoms.drop_first()[k] == d;
                    assert(datoms[k + 1] == d);
                },
            }
        }
    }
}

// ---------------------------------------------------------------------------
// Allocation accounting.

/// How many placeholders are still unresolved.
pub open spec fn none_count(binds: Seq<Option<int>>) -> nat
    decreases binds.len(),
{
    if binds.len() == 0 {
        0
    } else {
        (if binds[0] is None {
            1nat
        } else {
            0nat
        }) + none_count(binds.drop_first())
    }
}

/// Resolving an unresolved placeholder lowers the unresolved count by one.
pub proof fn lemma_none_count_update(binds: Seq<Option<int>>, j: int, e: int)
    requires
        0 <= j < binds.len(),
        binds[j] is None,
    ensures
        none_count(binds.update(j, Some(e))) + 1 == none_count(binds),
    decreases binds.len(),
{
    if j == 0 {
        assert(binds.update(0, Some(e)).drop_first() =~= binds.drop_first());
    } else {
        assert(binds.update(j, Some(e)).drop_first() =~= binds.drop_first().update(j - 1, Some(e)));
        lemma_none_count_update(binds.drop_first(), j - 1, e);
    }
}

/// An unresolved placeholder makes the unresolved count positive.
pub proof fn lemma_none_count_pos(binds: Seq<Option<int>>, j: int)
    requires
        0 <= j < binds.len(),
        binds[j] is None,
    ensures
        none_count(binds) >= 1,
    decreases binds.len(),
{
    if j > 0 {
        assert(binds.drop_first()[j - 1] == binds[j]);
        lemma_none_count_pos(binds.drop_first(), j - 1);
    }
}

/// A fully unresolved table counts every slot.
pub proof fn lemma_none_count_empty(n: nat)
    ensures
        none_count(Seq::new(n, |k: int| None::<int>)) == n,
    decreases n,
{
    let s = Seq::new(n, |k: int| None::<int>);
    if n > 0 {
        assert(s.drop_first() =~= Seq::new((n - 1) as nat, |k: int| None::<int>));
        lemma_none_count_empty((n - 1) as nat);
    }
}

// ---------------------------------------------------------------------------
// Preservation of well-formedness by submission.

/// One staged assertion, applied successfully, preserves well-formedness and
/// table validity, leaves the schema and vocabulary alone, extends the datoms,
/// and allocates at most what it resolves.
#[verifier::rlimit(40)]
pub proof fn lemma_apply_one_ok(m: StoreModel, binds: Seq<Option<int>>, t: TermModel)
    requires
        wf(m),
        binds_wf(m, binds),
    ensures
        match apply_one(m, binds, t) {
            Ok((m2, b2)) => {
                &&& wf(m2)
                &&& binds_wf(m2, b2)
                &&& m2.vocabs == m.vocabs
                &&& m2.schema == m.schema
                &&& m.next_e <= m2.next_e
                &&& b2.len() == binds.len()
                &&& m2.next_e + none_count(b2) <= m.next_e + none_count(binds)
                &&& m.datoms.is_prefix_of(m2.datoms)
            },
            Err(_) => true,
        },
{
    if 0 <= t.t < binds.len() && attr_of(m, t.a) is Some {
        let attr = attr_of(m, t.a).unwrap();
        // Subject resolution.
        let (m1, binds1, e) = match binds[t.t] {
            Some(e0) => (m, binds, e0),
            None => {
                let upsert = match t.v {
                    TermValueModel::Val(v) => if attr.is_unique() {
                        lemma_lookup_unique_means(m.datoms, t.a, v);
                        lookup_unique(m.datoms, t.a, v)
                    } else {
                        None
                    },
                    TermValueModel::Temp(_) => None,
                };
                lemma_none_count_pos(binds, t.t);
                lemma_none_count_update(binds, t.t, 0);
                match upsert {
                    Some(e0) => {
                        lemma_none_count_update(binds, t.t, e0);
                        (m, binds.update(t.t, Some(e0)), e0)
                    },
                    None => {
                        lemma_none_count_update(binds, t.t, m.next_e);
                        (
                            StoreModel { next_e: m.next_e + 1, ..m },
                            binds.update(t.t, Some(m.next_e)),
                            m.next_e,
                        )
                    },
                }
            },
        };
        assert(0 <= e < m1.next_e) by {
            match binds[t.t] {
                Some(e0) => {},
                None => {
                    match t.v {
                        TermValueModel::Val(v) => {
                            if attr.is_unique() {
                                match lookup_unique(m.datoms, t.a, v) {
                                    Some(e0) => {
                                        let d = DatomModel { e: e0, a: t.a, v: v };
                                        let k = choose|k: int|
                                            0 <= k < m.datoms.len() && m.datoms[k] == d;
                                        assert(0 <= m.datoms[k].e < m.next_e);
                                    },
                                    None => {},
                                }
                            }
                        },
                        TermValueModel::Temp(_) => {},
                    }
                },
            }
        }
        // Value resolution.
        let (m2, binds2, vres) = match t.v {
            TermValueModel::Val(v) => (m1, binds1, v),
            TermValueModel::Temp(j) => if !(0 <= j < binds1.len()) {
                (m1, binds1, ValueModel::Ref(0))
            } else {
                match binds1[j] {
                    Some(ej) => (m1, binds1, ValueModel::Ref(ej)),
                    None => {
                        lemma_none_count_pos(binds1, j);
                        lemma_none_count_update(binds1, j, m1.next_e);
                        (
                            StoreModel { next_e: m1.next_e + 1, ..m1 },
                            binds1.update(j, Some(m1.next_e)),
                            ValueModel::Ref(m1.next_e),
                        )
                    },
                }
            },
        };
        assert(wf(m2));
        assert(binds_wf(m2, binds2));
        assert(0 <= e < m2.next_e);
        let d = DatomModel { e: e, a: t.a, v: vres };
        if vres is Ref && !(0 <= vres->Ref_0 < m2.next_e) {
        } else if m2.datoms.contains(d) {
        } else if !attr.multival && lookup_ea(m2.datoms, e, t.a) is Some {
        } else if attr.is_unique() && lookup_unique(m2.datoms, t.a, vres) is Some {
        } else {
            let m3 = StoreModel { datoms: m2.datoms.push(d), ..m2 };
            let n = m2.datoms.len() as int;
            assert(m3.datoms[n] == d);
            assert(forall|i: int| 0 <= i < n ==> m3.datoms[i] == m2.datoms[i]);
            if !attr.multival {
                lemma_lookup_ea_means(m2.datoms, e, t.a);
            }
            if attr.is_unique() {
                lemma_lookup_unique_means(m2.datoms, t.a, vres);
            }
            assert(forall|i: int| 0 <= i < n ==> m2.datoms[i] != d);
            assert(attr_of(m3, d.a) is Some);
            assert(wf(m3)) by {
                assert(forall|i: int|
                    0 <= i < m3.datoms.len() ==> attr_of(m3, (#[trigger] m3.datoms[i]).a)
                        == attr_of(m2, m3.datoms[i].a));
                assert forall|i: int, j: int|
                    0 <= i < j < m3.datoms.len() && (#[trigger] m3.datoms[i]).a
                        == (#[trigger] m3.datoms[j]).a && attr_of(m3, m3.datoms[i].a).unwrap()
                        .is_unique() && m3.datoms[i].v == m3.datoms[j].v implies false by {
                    if j == n {
                        assert(!(m2.datoms[i].a == t.a && m2.datoms[i].v == vres));
                    }
                }
                assert forall|i: int, j: int|
                    0 <= i < j < m3.datoms.len() && (#[trigger] m3.datoms[i]).e
                        == (#[trigger] m3.datoms[j]).e && m3.datoms[i].a == m3.datoms[j].a
                        && !attr_of(m3, m3.datoms[i].a).unwrap().multival implies m3.datoms[i].v
                    == m3.datoms[j].v by {
                    if j == n {
                        assert(!(m2.datoms[i].e == e && m2.datoms[i].a == t.a));
                    }
                }
            }
            assert(m.datoms.is_prefix_of(m3.datoms)) by {
                assert(m.datoms =~= m2.datoms);
                assert(m3.datoms.take(m.datoms.len() as int) =~= m.datoms);
            }
        }
        if apply_one(m, binds, t) is Ok {
            let (mr, br) = apply_one(m, binds, t).unwrap();
            assert(m.datoms.is_prefix_of(mr.datoms)) by {
                if mr.datoms == m.datoms {
                    assert(mr.datoms.take(m.datoms.len() as int) =~= m.datoms);
                }
            }
        }
    }
}

/// Submitting a list of staged assertions successfully preserves
/// well-formedness, leaves schema and vocabulary alone, and only extends the
/// datoms.
pub proof fn lemma_apply_terms_ok(m: StoreModel, binds: Seq<Option<int>>, terms: Seq<TermModel>)
    requires
        wf(m),
        binds_wf(m, binds),
    ensures
        match apply_terms(m, binds, terms) {
            Ok((m2, b2)) => {
                &&& wf(m2)
                &&& binds_wf(m2, b2)
                &&& m2.vocabs == m.vocabs
                &&& m2.schema == m.schema
                &&& m.next_e <= m2.next_e
                &&& b2.len() == binds.len()
                &&& m2.next_e + none_count(b2) <= m.next_e + none_count(binds)
                &&& m.datoms.is_prefix_of(m2.datoms)
            },
            Err(_) => true,
        },
    decreases terms.len(),
{
    if terms.len() == 0 {
        assert(m.datoms.take(m.datoms.len() as int) =~= m.datoms);
    } else {
        lemma_apply_one_ok(m, binds, terms[0]);
        match apply_one(m, binds, terms[0]) {
            Err(_) => {},
            Ok((m1, binds1)) => {
                lemma_apply_terms_ok(m1, binds1, terms.drop_first());
                match apply_terms(m1, binds1, terms.drop_first()) {
                    Err(_) => {},
                    Ok((m2, b2)) => {
                        assert(m.datoms.is_prefix_of(m2.datoms)) by {
                            assert(m.datoms.is_prefix_of(m1.datoms));
                            assert(m1.datoms.is_prefix_of(m2.datoms));
                            assert(m2.datoms.take(m.datoms.len() as int)
                                =~= m1.datoms.take(m.datoms.len() as int));
                        }
                    },
                }
            },
        }
    }
}

// ---------------------------------------------------------------------------
// Schema coherence.

/// Whether an attribute, if installed under `name`, has the shape the
/// profile vocabulary declares for it.
pub open spec fn attr_consistent_at(m: StoreModel, name: Keyword) -> bool {
    match entry_for_name(m.schema, name) {
        Some(entry) => entry.attribute == profile_attribute(name),
        None => true,
    }
}

/// Whether the store's schema is coherent with the profile vocabulary: any
/// installed recorder attribute has its declared shape, and a recorded
/// vocabulary version means the attributes are really there. An
/// uninitialized store is coherent; so is every store this crate's
/// initializer has touched.
pub open spec fn profile_schema_coherent(m: StoreModel) -> bool {
    &&& attr_consistent_at(m, Keyword::PageUrl)
    &&& attr_consistent_at(m, Keyword::VisitPage)
    &&& attr_consistent_at(m, Keyword::VisitWhen)
    &&& match version_of(m.vocabs, Keyword::FenixProfile) {
        Some(v) => v >= 1 ==> initialized(m),
        None => true,
    }
}

/// Whether an executable result agrees with a modeled one.
pub open spec fn result_matches(r: Result<i64, ProfileError>, s: Result<int, ProfileError>) -> bool {
    match (r, s) {
        (Ok(v), Ok(w)) => v as int == w,
        (Err(e), Err(f)) => e == f,
        _ => false,
    }
}

// ---------------------------------------------------------------------------
// What first-match schema lookups mean.

/// What a name lookup's answer means: `None` means no entry carries the
/// name, and a hit is an entry of the schema carrying it.
pub proof fn lemma_entry_for_name_means(schema: Seq<SchemaEntryModel>, name: Keyword)
    ensures
        match entry_for_name(schema, name) {
            None => forall|i: int|
                0 <= i < schema.len() ==> (#[trigger] schema[i]).name != name,
            Some(en) => en.name == name && exists|i: int|
                0 <= i < schema.len() && (#[trigger] schema[i]) == en,
        },
    decreases schema.len(),
{
    if schema.len() > 0 {
        lemma_entry_for_name_means(schema.drop_first(), name);
        if schema[0].name == name {
        } else {
            match entry_for_name(schema.drop_first(), name) {
                None => {
                    assert forall|i: int|
                        0 <= i < schema.len() implies (#[trigger] schema[i]).name != name by {
                        if i > 0 {
                            assert(schema.drop_first()[i - 1] == schema[i]);
                        }
                    }
                },
                Some(en) => {
                    let k = choose|k: int|
                        0 <= k < schema.drop_first().len() && schema.drop_first()[k] == en;
                    assert(schema[k + 1] == en);
                },
            }
        }
    }
}

/// What an entity id lookup's answer means, likewise.
pub proof fn lemma_entry_for_entid_means(schema: Seq<SchemaEntryModel>, a: int)
    ensures
        match entry_for_entid(schema, a) {
            None => forall|i: int| 0 <= i < schema.len() ==> (#[trigger] schema[i]).e != a,
            Some(en) => en.e == a && exists|i: int|
                0 <= i < schema.len() && (#[trigger] schema[i]) == en,
        },
    decreases schema.len(),
{
    if schema.len() > 0 {
        lemma_entry_for_entid_means(schema.drop_first(), a);
        if schema[0].e == a {
        } else {
            match entry_for_entid(schema.drop_first(), a) {
                None => {
                    assert forall|i: int|
                        0 <= i < schema.len() implies (#[trigger] schema[i]).e != a by {
                        if i > 0 {
                            assert(schema.drop_first()[i - 1] == schema[i]);
                        }
                    }
                },
                Some(en) => {
                    let k = choose|k: int|
                        0 <= k < schema.drop_first().len() && schema.drop_first()[k] == en;
                    assert(schema[k + 1] == en);
                },
            }
        }
    }
}

/// In a well-formed store, the entry found under a name is also the entry
/// found under its entity id: resolving a name and then asking for the
/// attribute's shape agree.
pub proof fn lemma_named_entry_resolves(m: StoreModel, name: Keyword)
    requires
        wf(m),
        entry_for_name(m.schema, name) is Some,
    ensures
        attr_of(m, entid_of(m, name).unwrap()) == Some(
            entry_for_name(m.schema, name).unwrap().attribute,
        ),
{
    let en = entry_for_name(m.schema, name).unwrap();
    lemma_entry_for_name_means(m.schema, name);
    let i = choose|i: int| 0 <= i < m.schema.len() && m.schema[i] == en;
    lemma_entry_for_entid_means(m.schema, en.e);
    match entry_for_entid(m.schema, en.e) {
        None => {
            assert(m.schema[i].e != en.e);
        },
        Some(en2) => {
            let j = choose|j: int| 0 <= j < m.schema.len() && m.schema[j] == en2;
            if i != j {
                if i < j {
                    assert(m.schema[i].e != m.schema[j].e);
                } else {
                    assert(m.schema[j].e != m.schema[i].e);
                }
            }
        },
    }
}

/// In a well-formed store, attributes installed under different names have
/// different entity ids.
pub proof fn lemma_entids_distinct(m: StoreModel, n1: Keyword, n2: Keyword)
    requires
        wf(m),
        n1 != n2,
        entry_for_name(m.schema, n1) is Some,
        entry_for_name(m.schema, n2) is Some,
    ensures
        entid_of(m, n1).unwrap() != entid_of(m, n2).unwrap(),
{
    let e1 = entry_for_name(m.schema, n1).unwrap();
    let e2 = entry_for_name(m.schema, n2).unwrap();
    lemma_entry_for_name_means(m.schema, n1);
    lemma_entry_for_name_means(m.schema, n2);
    let i = choose|i: int| 0 <= i < m.schema.len() && m.schema[i] == e1;
    let j = choose|j: int| 0 <= j < m.schema.len() && m.schema[j] == e2;
    if i < j {
        assert(m.schema[i].e != m.schema[j].e);
    } else if j < i {
        assert(m.schema[j].e != m.schema[i].e);
    }
}

// ---------------------------------------------------------------------------
// Matching sets under uniqueness.

/// Unfolding the matching-entity collection from the front.
pub proof fn lemma_matching_entids_front(s: Seq<DatomModel>, a: int, v: ValueModel)
    requires
        s.len() > 0,
    ensures
        matching_entids(s, a, v) == (if s[0].a == a && s[0].v == v {
            seq![s[0].e]
        } else {
            Seq::<int>::empty()
        }) + matching_entids(s.drop_first(), a, v),
{
    let head = seq![s[0]];
    assert(s =~= head + s.drop_first());
    lemma_matching_entids_concat(head, s.drop_first(), a, v);
    assert(head.drop_last() =~= Seq::<DatomModel>::empty());
    assert(head.last() == s[0]);
    assert(matching_entids(Seq::<DatomModel>::empty(), a, v) == Seq::<int>::empty());
    assert(matching_entids(head, a, v) == matching_entids(Seq::<DatomModel>::empty(), a, v)
        + if head.last().a == a && head.last().v == v {
        seq![head.last().e]
    } else {
        Seq::<int>::empty()
    });
    if s[0].a == a && s[0].v == v {
        assert(matching_entids(head, a, v) =~= seq![s[0].e]);
    } else {
        assert(matching_entids(head, a, v) =~= Seq::<int>::empty());
    }
}

/// A first-match lookup agrees with the front of the matching collection.
pub proof fn lemma_lookup_vs_matching(s: Seq<DatomModel>, a: int, v: ValueModel)
    ensures
        match lookup_unique(s, a, v) {
            None => matching_entids(s, a, v).len() == 0,
            Some(e) => matching_entids(s, a, v).len() >= 1 && matching_entids(s, a, v)[0] == e,
        },
    decreases s.len(),
{
    if s.len() > 0 {
        lemma_matching_entids_front(s, a, v);
        lemma_lookup_vs_matching(s.drop_first(), a, v);
    }
}

/// A nonempty matching collection names a matching index.
pub proof fn lemma_matching_exists(s: Seq<DatomModel>, a: int, v: ValueModel)
    requires
        matching_entids(s, a, v).len() >= 1,
    ensures
        exists|i: int| 0 <= i < s.len() && (#[trigger] s[i]).a == a && s[i].v == v,
    decreases s.len(),
{
    if s.len() > 0 {
        if s.last().a == a && s.last().v == v {
            assert(s[s.len() - 1].a == a && s[s.len() - 1].v == v);
        } else {
            lemma_matching_exists(s.drop_last(), a, v);
            let i = choose|i: int|
                0 <= i < s.drop_last().len() && (#[trigger] s.drop_last()[i]).a == a
                    && s.drop_last()[i].v == v;
            assert(s[i].a == a && s[i].v == v);
        }
    }
}

/// A matching collection of two names two distinct matching indices.
proof fn lemma_matching_two(s: Seq<DatomModel>, a: int, v: ValueModel)
    requires
        matching_entids(s, a, v).len() >= 2,
    ensures
        exists|i: int, j: int|
            0 <= i < j < s.len() && (#[trigger] s[i]).a == a && s[i].v == v && (#[trigger] s[j]).a
                == a && s[j].v == v,
    decreases s.len(),
{
    if s.len() > 0 {
        if s.last().a == a && s.last().v == v {
            lemma_matching_exists(s.drop_last(), a, v);
            let i = choose|i: int|
                0 <= i < s.drop_last().len() && (#[trigger] s.drop_last()[i]).a == a
                    && s.drop_last()[i].v == v;
            assert(s[i].a == a && s[i].v == v);
            assert(s[s.len() - 1].a == a && s[s.len() - 1].v == v);
        } else {
            lemma_matching_two(s.drop_last(), a, v);
            let (i, j) = choose|i: int, j: int|
                0 <= i < j < s.drop_last().len() && (#[trigger] s.drop_last()[i]).a == a
                    && s.drop_last()[i].v == v && (#[trigger] s.drop_last()[j]).a == a
                    && s.drop_last()[j].v == v;
            assert(s[i].a == a && s[i].v == v);
            assert(s[j].a == a && s[j].v == v);
        }
    }
}

/// Under a unique attribute, a well-formed store holds each value on at most
/// one entity.
pub proof fn lemma_unique_bound(m: StoreModel, a: int, v: ValueModel)
    requires
        wf(m),
        attr_of(m, a) is Some,
        attr_of(m, a).unwrap().is_unique(),
    ensures
        matching_entids(m.datoms, a, v).len() <= 1,
{
    if matching_entids(m.datoms, a, v).len() >= 2 {
        lemma_matching_two(m.datoms, a, v);
        let (i, j) = choose|i: int, j: int|
            0 <= i < j < m.datoms.len() && (#[trigger] m.datoms[i]).a == a && m.datoms[i].v == v
                && (#[trigger] m.datoms[j]).a == a && m.datoms[j].v == v;
        assert(false);
    }
}

// ---------------------------------------------------------------------------
// Properties of vocabulary installation.

/// Installing a definition's attributes preserves well-formedness, keeps
/// every entry that was already there, makes every listed name present, and
/// installs a freshly listed name with its listed shape.
pub proof fn lemma_install_props(m: StoreModel, attrs: Seq<(Keyword, Attribute)>)
    requires
        wf(m),
    ensures
        ({
            let (schema2, next2) = install_missing(m.schema, attrs, m.next_e);
            &&& wf(StoreModel { schema: schema2, next_e: next2, ..m })
            &&& m.next_e <= next2 <= m.next_e + attrs.len()
            &&& forall|n: Keyword| #![trigger entry_for_name(schema2, n)]
                entry_for_name(m.schema, n) is Some ==> entry_for_name(schema2, n)
                    == entry_for_name(m.schema, n)
            &&& forall|i: int|
                0 <= i < attrs.len() ==> entry_for_name(schema2, (#[trigger] attrs[i]).0) is Some
            &&& forall|i: int|
                0 <= i < attrs.len() && entry_for_name(m.schema, (#[trigger] attrs[i]).0) is None
                    && (forall|j: int| 0 <= j < i ==> (#[trigger] attrs[j]).0 != attrs[i].0)
                    ==> entry_for_name(schema2, attrs[i].0).unwrap().attribute == attrs[i].1
        }),
    decreases attrs.len(),
{
    if attrs.len() > 0 {
        let (name, at) = attrs[0];
        let rest = attrs.drop_first();
        assert(forall|i: int| 0 <= i < rest.len() ==> (#[trigger] rest[i]) == attrs[i + 1]);
        if entry_for_name(m.schema, name) is Some {
            lemma_install_props(m, rest);
            let (schema2, next2) = install_missing(m.schema, attrs, m.next_e);
            assert((schema2, next2) == install_missing(m.schema, rest, m.next_e));
            assert forall|i: int|
                0 <= i < attrs.len() implies entry_for_name(
                schema2,
                (#[trigger] attrs[i]).0,
            ) is Some by {
                if i == 0 {
                    assert(entry_for_name(schema2, name) == entry_for_name(m.schema, name));
                } else {
                    assert(rest[i - 1] == attrs[i]);
                }
            }
            assert forall|i: int|
                0 <= i < attrs.len() && entry_for_name(m.schema, (#[trigger] attrs[i]).0) is None
                    && (forall|j: int| 0 <= j < i ==> (#[trigger] attrs[j]).0 != attrs[i].0)
                    implies entry_for_name(schema2, attrs[i].0).unwrap().attribute == attrs[i].1 by {
                if i > 0 {
                    assert(rest[i - 1] == attrs[i]);
                    assert(forall|j: int|
                        0 <= j < i - 1 ==> (#[trigger] rest[j]).0 != rest[i - 1].0);
                }
            }
        } else {
            let new_entry = SchemaEntryModel { name: name, e: m.next_e, attribute: at };
            let m1 = StoreModel {
                schema: m.schema.push(new_entry),
                next_e: m.next_e + 1,
                ..m
            };
            lemma_entry_for_name_means(m.schema, name);
            let n = m.schema.len() as int;
            assert(m1.schema[n] == new_entry);
            assert(forall|i: int| 0 <= i < n ==> m1.schema[i] == m.schema[i]);
            assert(m.schema.push(new_entry) =~= m.schema + seq![new_entry]);
            // Lookups in the extended schema fall back to the new entry only
            // when the old schema has no match.
            assert forall|x: int| true implies entry_for_entid(m1.schema, x) == (
                match entry_for_entid(m.schema, x) {
                    Some(en) => Some(en),
                    None => entry_for_entid(seq![new_entry], x),
                }
            ) by {
                lemma_entry_for_entid_concat(m.schema, seq![new_entry], x);
            }
            assert(entry_for_entid(seq![new_entry], new_entry.e) == Some(new_entry)) by {
                assert(seq![new_entry].drop_first() =~= Seq::<SchemaEntryModel>::empty());
            }
            assert(wf(m1)) by {
                assert forall|i: int|
                    0 <= i < m1.datoms.len() implies attr_of(
                    m1,
                    (#[trigger] m1.datoms[i]).a,
                ) is Some by {
                    assert(attr_of(m, m1.datoms[i].a) is Some);
                    lemma_entry_for_entid_means(m.schema, m1.datoms[i].a);
                }
                assert forall|i: int, j: int|
                    0 <= i < j < m1.datoms.len() && (#[trigger] m1.datoms[i]).a
                        == (#[trigger] m1.datoms[j]).a && attr_of(m1, m1.datoms[i].a).unwrap()
                        .is_unique() && m1.datoms[i].v == m1.datoms[j].v implies false by {
                    assert(attr_of(m, m1.datoms[i].a) is Some);
                    assert(attr_of(m1, m1.datoms[i].a) == attr_of(m, m1.datoms[i].a));
                }
                assert forall|i: int, j: int|
                    0 <= i < j < m1.datoms.len() && (#[trigger] m1.datoms[i]).e
                        == (#[trigger] m1.datoms[j]).e && m1.datoms[i].a == m1.datoms[j].a
                        && !attr_of(m1, m1.datoms[i].a).unwrap().multival implies m1.datoms[i].v
                    == m1.datoms[j].v by {
                    assert(attr_of(m, m1.datoms[i].a) is Some);
                    assert(attr_of(m1, m1.datoms[i].a) == attr_of(m, m1.datoms[i].a));
                }
            }
            lemma_install_props(m1, rest);
            // Name lookups in the extended schema.
            assert forall|nm: Keyword| true implies entry_for_name(m1.schema, nm) == (
                match entry_for_name(m.schema, nm) {
                    Some(en) => Some(en),
                    None => entry_for_name(seq![new_entry], nm),
                }
            ) by {
                lemma_entry_for_name_concat(m.schema, seq![new_entry], nm);
            }
            assert(entry_for_name(seq![new_entry], name) == Some(new_entry)) by {
                assert(seq![new_entry].drop_first() =~= Seq::<SchemaEntryModel>::empty());
            }
            assert forall|nm: Keyword| nm != name implies entry_for_name(
                seq![new_entry],
                nm,
            ) is None by {
                assert(seq![new_entry].drop_first() =~= Seq::<SchemaEntryModel>::empty());
                assert(entry_for_name(Seq::<SchemaEntryModel>::empty(), nm) is None);
            }
            let (schema2, next2) = install_missing(m.schema, attrs, m.next_e);
            assert((schema2, next2) == install_missing(m1.schema, rest, m1.next_e));
            // Lift the tail facts to the whole list.
            assert forall|i: int|
                0 <= i < attrs.len() implies entry_for_name(
                schema2,
                (#[trigger] attrs[i]).0,
            ) is Some by {
                if i == 0 {
                    assert(entry_for_name(m1.schema, name) == Some(new_entry));
                } else {
                    assert(rest[i - 1] == attrs[i]);
                }
            }
            assert forall|i: int|
                0 <= i < attrs.len() && entry_for_name(m.schema, (#[trigger] attrs[i]).0) is None
                    && (forall|j: int| 0 <= j < i ==> (#[trigger] attrs[j]).0 != attrs[i].0)
                    implies entry_for_name(schema2, attrs[i].0).unwrap().attribute == attrs[i].1 by {
                if i == 0 {
                    assert(entry_for_name(m1.schema, name) == Some(new_entry));
                } else {
                    assert(rest[i - 1] == attrs[i]);
                    assert(attrs[0].0 != attrs[i].0);
                    assert(entry_for_name(m1.schema, attrs[i].0) is None);
                    assert(forall|j: int| 0 <= j < i - 1 ==> (#[trigger] rest[j]).0 != rest[i - 1].0);
                }
            }
        }
    } else {
        assert(wf(StoreModel { schema: m.schema, next_e: m.next_e, ..m })) by {
            assert(StoreModel { schema: m.schema, next_e: m.next_e, ..m } =~= m);
        }
    }
}

/// The initializer's effect: well-formedness is preserved, the datoms are
/// untouched, and on a coherent store the recorder's attributes come out
/// installed with their declared shapes.
pub proof fn lemma_initialize_props(m: StoreModel)
    requires
        wf(m),
    ensures
        ({
            let m2 = initialize_model(m);
            &&& wf(m2)
            &&& m.next_e <= m2.next_e <= m.next_e + 5
            &&& m2.datoms == m.datoms
            &&& profile_schema_coherent(m) ==> profile_schema_coherent(m2) && initialized(m2)
        }),
{
    let attrs = profile_definition_attrs();
    let m2 = initialize_model(m);
    let satisfied = match version_of(m.vocabs, Keyword::FenixProfile) {
        Some(v) => v >= 1,
        None => false,
    };
    if satisfied {
        assert(m2 == m);
    } else {
        lemma_install_props(m, attrs);
        let (schema2, next2) = install_missing(m.schema, attrs, m.next_e);
        assert(m2.schema == schema2 && m2.next_e == next2 && m2.datoms == m.datoms);
        assert(wf(m2)) by {
            let mi = StoreModel { schema: schema2, next_e: next2, ..m };
            assert(forall|i: int|
                0 <= i < m2.datoms.len() ==> attr_of(m2, (#[trigger] m2.datoms[i]).a) == attr_of(
                    mi,
                    m2.datoms[i].a,
                ));
            assert forall|i: int, j: int|
                0 <= i < j < m2.datoms.len() && (#[trigger] m2.datoms[i]).a
                    == (#[trigger] m2.datoms[j]).a && attr_of(m2, m2.datoms[i].a).unwrap()
                    .is_unique() && m2.datoms[i].v == m2.datoms[j].v implies false by {
                assert(attr_of(mi, m2.datoms[i].a) == attr_of(m2, m2.datoms[i].a));
                assert(wf(mi));
            }
            assert forall|i: int, j: int|
                0 <= i < j < m2.datoms.len() && (#[trigger] m2.datoms[i]).e
                    == (#[trigger] m2.datoms[j]).e && m2.datoms[i].a == m2.datoms[j].a
                    && !attr_of(m2, m2.datoms[i].a).unwrap().multival implies m2.datoms[i].v
                == m2.datoms[j].v by {
                assert(attr_of(mi, m2.datoms[i].a) == attr_of(m2, m2.datoms[i].a));
                assert(wf(mi));
            }
        }
        if profile_schema_coherent(m) {
            assert(attrs[0] == (Keyword::PageUrl, profile_attribute(Keyword::PageUrl)));
            assert(attrs[1] == (Keyword::VisitPage, profile_attribute(Keyword::VisitPage)));
            assert(attrs[2] == (Keyword::VisitWhen, profile_attribute(Keyword::VisitWhen)));
            assert(initialized(m2));
            assert(attr_consistent_at(m2, Keyword::PageUrl)) by {
                if entry_for_name(m.schema, Keyword::PageUrl) is Some {
                } else {
                    assert(forall|j: int| 0 <= j < 0 ==> (#[trigger] attrs[j]).0 != attrs[0].0);
                }
            }
            assert(attr_consistent_at(m2, Keyword::VisitPage)) by {
                if entry_for_name(m.schema, Keyword::VisitPage) is Some {
                } else {
                    assert(forall|j: int|
                        0 <= j < 1 ==> (#[trigger] attrs[j]).0 != attrs[1].0);
                }
            }
            assert(attr_consistent_at(m2, Keyword::VisitWhen)) by {
                if entry_for_name(m.schema, Keyword::VisitWhen) is Some {
                } else {
                    assert(forall|j: int|
                        0 <= j < 2 ==> (#[trigger] attrs[j]).0 != attrs[2].0);
                }
            }
        }
    }
}

// ---------------------------------------------------------------------------
// What the recorder's staged assertions do.

/// A datom on a fresh entity is not present, and neither is anything under
/// its (entity, attribute) slot, even after appending datoms that avoid both.
proof fn lemma_extended_checks(m: StoreModel, extra: Seq<DatomModel>, d: DatomModel)
    requires
        wf(m),
        d.e >= m.next_e,
        forall|i: int| 0 <= i < extra.len() ==> (#[trigger] extra[i]) != d,
        forall|i: int|
            0 <= i < extra.len() ==> !((#[trigger] extra[i]).e == d.e && extra[i].a == d.a),
    ensures
        !(m.datoms + extra).contains(d),
        lookup_ea(m.datoms + extra, d.e, d.a) is None,
{
    let s = m.datoms + extra;
    let n = m.datoms.len() as int;
    assert(forall|k: int| 0 <= k < n ==> (#[trigger] s[k]) == m.datoms[k]);
    assert(forall|k: int| n <= k < s.len() ==> (#[trigger] s[k]) == extra[k - n]);
    if s.contains(d) {
        let k = choose|k: int| 0 <= k < s.len() && s[k] == d;
        if k < n {
            assert(0 <= m.datoms[k].e < m.next_e);
        } else {
            assert(extra[k - n] != d);
        }
        assert(false);
    }
    lemma_lookup_ea_means(s, d.e, d.a);
    match lookup_ea(s, d.e, d.a) {
        Some(v) => {
            let dd = DatomModel { e: d.e, a: d.a, v: v };
            let k = choose|k: int| 0 <= k < s.len() && s[k] == dd;
            if k < n {
                assert(0 <= m.datoms[k].e < m.next_e);
            } else {
                assert(!(extra[k - n].e == d.e && extra[k - n].a == d.a));
            }
            assert(false);
        },
        None => {},
    }
}

/// Submitting the single page assertion against a store with no page for the
/// url creates the page on a fresh entity.
pub proof fn lemma_apply_page_create(m: StoreModel, urla: int, url: Seq<char>)
    requires
        wf(m),
        attr_of(m, urla) is Some,
        matching_entids(m.datoms, urla, ValueModel::Text(url)).len() == 0,
    ensures
        ({
            let d = DatomModel { e: m.next_e, a: urla, v: ValueModel::Text(url) };
            apply_terms(
                m,
                seq![None::<int>],
                seq![TermModel { t: 0, a: urla, v: TermValueModel::Val(ValueModel::Text(url)) }],
            ) == Ok::<_, ProfileError>(
                (
                    StoreModel { next_e: m.next_e + 1, datoms: m.datoms.push(d), ..m },
                    seq![Some(m.next_e)],
                ),
            )
        }),
{
    let b0 = seq![None::<int>];
    let t1 = TermModel { t: 0, a: urla, v: TermValueModel::Val(ValueModel::Text(url)) };
    let d = DatomModel { e: m.next_e, a: urla, v: ValueModel::Text(url) };
    lemma_lookup_vs_matching(m.datoms, urla, ValueModel::Text(url));
    assert(lookup_unique(m.datoms, urla, ValueModel::Text(url)) is None);
    lemma_extended_checks(m, Seq::empty(), d);
    assert(m.datoms + Seq::<DatomModel>::empty() =~= m.datoms);
    assert(b0.update(0, Some(m.next_e)) =~= seq![Some(m.next_e)]);
    let m1 = StoreModel { next_e: m.next_e + 1, datoms: m.datoms.push(d), ..m };
    assert(apply_one(m, b0, t1) == Ok::<_, ProfileError>((m1, seq![Some(m.next_e)])));
    reveal_with_fuel(apply_terms, 2);
    assert(seq![t1].drop_first() =~= Seq::<TermModel>::empty());
    assert(apply_terms(m1, seq![Some(m.next_e)], Seq::<TermModel>::empty()) == Ok::<
        _,
        ProfileError,
    >((m1, seq![Some(m.next_e)])));
}

/// Submitting the two visit assertions creates the visit on a fresh entity,
/// referencing page `p` and carrying the instant.
pub proof fn lemma_apply_visit(m: StoreModel, vpa: int, vwa: int, p: int, when: int)
    requires
        wf(m),
        attr_of(m, vpa) is Some,
        !attr_of(m, vpa).unwrap().is_unique(),
        attr_of(m, vwa) is Some,
        !attr_of(m, vwa).unwrap().is_unique(),
        vpa != vwa,
        0 <= p < m.next_e,
    ensures
        ({
            let d1 = DatomModel { e: m.next_e, a: vpa, v: ValueModel::Ref(p) };
            let d2 = DatomModel { e: m.next_e, a: vwa, v: ValueModel::Instant(when) };
            apply_terms(
                m,
                seq![None::<int>],
                seq![
                    TermModel { t: 0, a: vpa, v: TermValueModel::Val(ValueModel::Ref(p)) },
                    TermModel { t: 0, a: vwa, v: TermValueModel::Val(ValueModel::Instant(when)) },
                ],
            ) == Ok::<_, ProfileError>(
                (
                    StoreModel { next_e: m.next_e + 1, datoms: m.datoms + seq![d1, d2], ..m },
                    seq![Some(m.next_e)],
                ),
            )
        }),
{
    let b0 = seq![None::<int>];
    let t1 = TermModel { t: 0, a: vpa, v: TermValueModel::Val(ValueModel::Ref(p)) };
    let t2 = TermModel { t: 0, a: vwa, v: TermValueModel::Val(ValueModel::Instant(when)) };
    let d1 = DatomModel { e: m.next_e, a: vpa, v: ValueModel::Ref(p) };
    let d2 = DatomModel { e: m.next_e, a: vwa, v: ValueModel::Instant(when) };
    let b1 = seq![Some(m.next_e)];
    lemma_extended_checks(m, Seq::empty(), d1);
    assert(m.datoms + Seq::<DatomModel>::empty() =~= m.datoms);
    assert(b0.update(0, Some(m.next_e)) =~= b1);
    let m1 = StoreModel { next_e: m.next_e + 1, datoms: m.datoms.push(d1), ..m };
    assert(apply_one(m, b0, t1) == Ok::<_, ProfileError>((m1, b1)));
    lemma_extended_checks(m, seq![d1], d2);
    assert(m.datoms + seq![d1] =~= m1.datoms);
    let m2 = StoreModel { next_e: m.next_e + 1, datoms: m1.datoms.push(d2), ..m };
    assert(apply_one(m1, b1, t2) == Ok::<_, ProfileError>((m2, b1)));
    reveal_with_fuel(apply_terms, 3);
    let terms = seq![t1, t2];
    assert(terms.drop_first() =~= seq![t2]);
    assert(seq![t2].drop_first() =~= Seq::<TermModel>::empty());
    assert(apply_terms(m2, b1, Seq::<TermModel>::empty()) == Ok::<_, ProfileError>((m2, b1)));
    assert(m2.datoms =~= m.datoms + seq![d1, d2]);
    assert(m2 =~~= (StoreModel { next_e: m.next_e + 1, datoms: m.datoms + seq![d1, d2], ..m }));
}

/// Submitting the page and visit assertions in one go: the page placeholder
/// resolves to the existing page when the url is recorded, and to a fresh
/// entity otherwise; the visit lands on a fresh entity referencing it.
pub proof fn lemma_apply_record(m: StoreModel, urla: int, vpa: int, vwa: int, url: Seq<char>, when: int)
    requires
        wf(m),
        attr_of(m, urla) is Some,
        attr_of(m, urla).unwrap().is_unique(),
        attr_of(m, vpa) is Some,
        !attr_of(m, vpa).unwrap().is_unique(),
        attr_of(m, vwa) is Some,
        !attr_of(m, vwa).unwrap().is_unique(),
        vpa != vwa,
        matching_entids(m.datoms, urla, ValueModel::Text(url)).len() <= 1,
    ensures
        ({
            let pages = matching_entids(m.datoms, urla, ValueModel::Text(url));
            let terms = seq![
                TermModel { t: 0, a: urla, v: TermValueModel::Val(ValueModel::Text(url)) },
                TermModel { t: 1, a: vpa, v: TermValueModel::Temp(0) },
                TermModel { t: 1, a: vwa, v: TermValueModel::Val(ValueModel::Instant(when)) },
            ];
            let b0 = seq![None::<int>, None::<int>];
            if pages.len() == 0 {
                apply_terms(m, b0, terms) == Ok::<_, ProfileError>(
                    (
                        StoreModel {
                            next_e: m.next_e + 2,
                            datoms: m.datoms + seq![
                                DatomModel { e: m.next_e, a: urla, v: ValueModel::Text(url) },
                                DatomModel {
                                    e: m.next_e + 1,
                                    a: vpa,
                                    v: ValueModel::Ref(m.next_e),
                                },
                                DatomModel {
                                    e: m.next_e + 1,
                                    a: vwa,
                                    v: ValueModel::Instant(when),
                                },
                            ],
                            ..m
                        },
                        seq![Some(m.next_e), Some(m.next_e + 1)],
                    ),
                )
            } else {
                apply_terms(m, b0, terms) == Ok::<_, ProfileError>(
                    (
                        StoreModel {
                            next_e: m.next_e + 1,
                            datoms: m.datoms + seq![
                                DatomModel {
                                    e: m.next_e,
                                    a: vpa,
                                    v: ValueModel::Ref(pages[0]),
                                },
                                DatomModel {
                                    e: m.next_e,
                                    a: vwa,
                                    v: ValueModel::Instant(when),
                                },
                            ],
                            ..m
                        },
                        seq![Some(pages[0]), Some(m.next_e)],
                    ),
                )
            }
        }),
{
    let pages = matching_entids(m.datoms, urla, ValueModel::Text(url));
    let t1 = TermModel { t: 0, a: urla, v: TermValueModel::Val(ValueModel::Text(url)) };
    let t2 = TermModel { t: 1, a: vpa, v: TermValueModel::Temp(0) };
    let t3 = TermModel { t: 1, a: vwa, v: TermValueModel::Val(ValueModel::Instant(when)) };
    let terms = seq![t1, t2, t3];
    let b0 = seq![None::<int>, None::<int>];
    lemma_lookup_vs_matching(m.datoms, urla, ValueModel::Text(url));
    reveal_with_fuel(apply_terms, 4);
    assert(terms.drop_first() =~= seq![t2, t3]);
    assert(seq![t2, t3].drop_first() =~= seq![t3]);
    assert(seq![t3].drop_first() =~= Seq::<TermModel>::empty());
    if pages.len() == 0 {
        let pd = DatomModel { e: m.next_e, a: urla, v: ValueModel::Text(url) };
        let d1 = DatomModel { e: m.next_e + 1, a: vpa, v: ValueModel::Ref(m.next_e) };
        let d2 = DatomModel { e: m.next_e + 1, a: vwa, v: ValueModel::Instant(when) };
        assert(lookup_unique(m.datoms, urla, ValueModel::Text(url)) is None);
        lemma_extended_checks(m, Seq::empty(), pd);
        assert(m.datoms + Seq::<DatomModel>::empty() =~= m.datoms);
        let b1 = seq![Some(m.next_e), None::<int>];
        assert(b0.update(0, Some(m.next_e)) =~= b1);
        let m1 = StoreModel { next_e: m.next_e + 1, datoms: m.datoms.push(pd), ..m };
        assert(apply_one(m, b0, t1) == Ok::<_, ProfileError>((m1, b1)));
        lemma_extended_checks(m, seq![pd], d1);
        assert(m.datoms + seq![pd] =~= m1.datoms);
        let b2 = seq![Some(m.next_e), Some(m.next_e + 1)];
        assert(b1.update(1, Some(m.next_e + 1)) =~= b2);
        let m2 = StoreModel { next_e: m.next_e + 2, datoms: m1.datoms.push(d1), ..m };
        assert(apply_one(m1, b1, t2) == Ok::<_, ProfileError>((m2, b2)));
        lemma_extended_checks(m, seq![pd, d1], d2);
        assert(m.datoms + seq![pd, d1] =~= m2.datoms);
        let m3 = StoreModel { next_e: m.next_e + 2, datoms: m2.datoms.push(d2), ..m };
        assert(apply_one(m2, b2, t3) == Ok::<_, ProfileError>((m3, b2)));
        assert(apply_terms(m3, b2, Seq::<TermModel>::empty()) == Ok::<_, ProfileError>((m3, b2)));
        assert(m3.datoms =~= m.datoms + seq![pd, d1, d2]);
        assert(m3 =~~= (StoreModel {
            next_e: m.next_e + 2,
            datoms: m.datoms + seq![pd, d1, d2],
            ..m
        }));
    } else {
        let p = pages[0];
        let d1 = DatomModel { e: m.next_e, a: vpa, v: ValueModel::Ref(p) };
        let d2 = DatomModel { e: m.next_e, a: vwa, v: ValueModel::Instant(when) };
        assert(lookup_unique(m.datoms, urla, ValueModel::Text(url)) == Some(p));
        lemma_lookup_unique_means(m.datoms, urla, ValueModel::Text(url));
        let pd = DatomModel { e: p, a: urla, v: ValueModel::Text(url) };
        assert(m.datoms.contains(pd));
        let kk = choose|kk: int| 0 <= kk < m.datoms.len() && m.datoms[kk] == pd;
        assert(0 <= m.datoms[kk].e < m.next_e);
        assert(0 <= p < m.next_e);
        let b1 = seq![Some(p), None::<int>];
        assert(b0.update(0, Some(p)) =~= b1);
        assert(apply_one(m, b0, t1) == Ok::<_, ProfileError>((m, b1)));
        lemma_extended_checks(m, Seq::empty(), d1);
        assert(m.datoms + Seq::<DatomModel>::empty() =~= m.datoms);
        let b2 = seq![Some(p), Some(m.next_e)];
        assert(b1.update(1, Some(m.next_e)) =~= b2);
        let m2 = StoreModel { next_e: m.next_e + 1, datoms: m.datoms.push(d1), ..m };
        assert(apply_one(m, b1, t2) == Ok::<_, ProfileError>((m2, b2)));
        lemma_extended_checks(m, seq![d1], d2);
        assert(m.datoms + seq![d1] =~= m2.datoms);
        let m3 = StoreModel { next_e: m.next_e + 1, datoms: m2.datoms.push(d2), ..m };
        assert(apply_one(m2, b2, t3) == Ok::<_, ProfileError>((m3, b2)));
        assert(apply_terms(m3, b2, Seq::<TermModel>::empty()) == Ok::<_, ProfileError>((m3, b2)));
        assert(m3.datoms =~= m.datoms + seq![d1, d2]);
        assert(m3 =~~= (StoreModel {
            next_e: m.next_e + 1,
            datoms: m.datoms + seq![d1, d2],
            ..m
        }));
    }
}

/// The store state and result of recording one visit: resolve the page for
/// `url` — creating it when absent — then append a visit referencing it with
/// instant `when`, or fail with the store unchanged.
pub open spec fn record_visit_model(m: StoreModel, url: Seq<char>, when: int) -> (
    StoreModel,
    Result<int, ProfileError>,
) {
    if entid_of(m, Keyword::PageUrl) is None {
        (m, Err(ProfileError::AttributeNotFound(Keyword::PageUrl)))
    } else if entid_of(m, Keyword::VisitPage) is None {
        (m, Err(ProfileError::AttributeNotFound(Keyword::VisitPage)))
    } else if entid_of(m, Keyword::VisitWhen) is None {
        (m, Err(ProfileError::AttributeNotFound(Keyword::VisitWhen)))
    } else {
        let urla = entid_of(m, Keyword::PageUrl).unwrap();
        let vpa = entid_of(m, Keyword::VisitPage).unwrap();
        let vwa = entid_of(m, Keyword::VisitWhen).unwrap();
        let pages = page_entids(m, url);
        if pages.len() > 1 {
            (m, Err(ProfileError::PageNotUnique))
        } else if pages.len() == 1 {
            let p = pages[0];
            let visit = m.next_e;
            (
                StoreModel {
                    next_e: m.next_e + 1,
                    datoms: m.datoms + seq![
                        DatomModel { e: visit, a: vpa, v: ValueModel::Ref(p) },
                        DatomModel { e: visit, a: vwa, v: ValueModel::Instant(when) },
                    ],
                    ..m
                },
                Ok(visit),
            )
        } else {
            let p = m.next_e;
            let visit = m.next_e + 1;
            (
                StoreModel {
                    next_e: m.next_e + 2,
                    datoms: m.datoms + seq![
                        DatomModel { e: p, a: urla, v: ValueModel::Text(url) },
                        DatomModel { e: visit, a: vpa, v: ValueModel::Ref(p) },
                        DatomModel { e: visit, a: vwa, v: ValueModel::Instant(when) },
                    ],
                    ..m
                },
                Ok(visit),
            )
        }
    }
}

// ---------------------------------------------------------------------------
// Laws of recording.

/// One successful recording step: validity, coherence and the schema are
/// preserved, the url's page set comes out a singleton — reusing the
/// existing page when there was one — every other url's page set is
/// untouched, and exactly one visit for the url's page is appended.
pub proof fn lemma_record_visit_step(m: StoreModel, url: Seq<char>, when: int)
    requires
        wf(m),
        profile_schema_coherent(m),
        initialized(m),
    ensures
        ({
            let (m2, res) = record_visit_model(m, url, when);
            &&& res is Ok
            &&& wf(m2)
            &&& profile_schema_coherent(m2)
            &&& initialized(m2)
            &&& m.next_e < m2.next_e
            &&& m2.schema == m.schema
            &&& page_entids(m2, url).len() == 1
            &&& (page_entids(m, url).len() == 1 ==> page_entids(m2, url) == page_entids(m, url))
            &&& forall|u2: Seq<char>|
                u2 != url ==> #[trigger] page_entids(m2, u2) == page_entids(m, u2)
            &&& visit_entids_for_url(m2, url) == visit_entids_for_url(m, url).push(res.unwrap())
        }),
{
    let urla = entid_of(m, Keyword::PageUrl).unwrap();
    let vpa = entid_of(m, Keyword::VisitPage).unwrap();
    let vwa = entid_of(m, Keyword::VisitWhen).unwrap();
    lemma_named_entry_resolves(m, Keyword::PageUrl);
    lemma_named_entry_resolves(m, Keyword::VisitPage);
    lemma_named_entry_resolves(m, Keyword::VisitWhen);
    lemma_entids_distinct(m, Keyword::PageUrl, Keyword::VisitPage);
    lemma_entids_distinct(m, Keyword::PageUrl, Keyword::VisitWhen);
    lemma_entids_distinct(m, Keyword::VisitPage, Keyword::VisitWhen);
    lemma_unique_bound(m, urla, ValueModel::Text(url));
    let pages = page_entids(m, url);
    lemma_apply_record(m, urla, vpa, vwa, url, when);
    let terms = seq![
        TermModel { t: 0, a: urla, v: TermValueModel::Val(ValueModel::Text(url)) },
        TermModel { t: 1, a: vpa, v: TermValueModel::Temp(0) },
        TermModel { t: 1, a: vwa, v: TermValueModel::Val(ValueModel::Instant(when)) },
    ];
    let b0 = seq![None::<int>, None::<int>];
    lemma_apply_terms_ok(m, b0, terms);
    let (m2, res) = record_visit_model(m, url, when);
    match apply_terms(m, b0, terms) {
        Ok((m3, b3)) => {
            assert(m2 =~~= m3);
        },
        Err(_) => {
            assert(false);
        },
    }
    assert(entid_of(m2, Keyword::PageUrl) == entid_of(m, Keyword::PageUrl));
    assert(entid_of(m2, Keyword::VisitPage) == entid_of(m, Keyword::VisitPage));
    if pages.len() == 0 {
        let pd = DatomModel { e: m.next_e, a: urla, v: ValueModel::Text(url) };
        let d1 = DatomModel { e: m.next_e + 1, a: vpa, v: ValueModel::Ref(m.next_e) };
        let d2 = DatomModel { e: m.next_e + 1, a: vwa, v: ValueModel::Instant(when) };
        let app = seq![pd, d1, d2];
        assert(m2.datoms == m.datoms + app);
        assert(app.drop_first() =~= seq![d1, d2]);
        assert(seq![d1, d2].drop_first() =~= seq![d2]);
        assert(seq![d2].drop_first() =~= Seq::<DatomModel>::empty());
        // The page set becomes the fresh page alone.
        lemma_matching_entids_concat(m.datoms, app, urla, ValueModel::Text(url));
        lemma_matching_entids_front(app, urla, ValueModel::Text(url));
        lemma_matching_entids_front(seq![d1, d2], urla, ValueModel::Text(url));
        lemma_matching_entids_front(seq![d2], urla, ValueModel::Text(url));
        assert(matching_entids(Seq::<DatomModel>::empty(), urla, ValueModel::Text(url))
            == Seq::<int>::empty());
        assert(matching_entids(app, urla, ValueModel::Text(url)) =~= seq![m.next_e]);
        assert(pages =~= Seq::<int>::empty());
        assert(page_entids(m2, url) =~= seq![m.next_e]);
        // Other urls are untouched.
        assert forall|u2: Seq<char>| u2 != url implies #[trigger] page_entids(m2, u2)
            == page_entids(m, u2) by {
            lemma_matching_entids_concat(m.datoms, app, urla, ValueModel::Text(u2));
            lemma_matching_entids_front(app, urla, ValueModel::Text(u2));
            lemma_matching_entids_front(seq![d1, d2], urla, ValueModel::Text(u2));
            lemma_matching_entids_front(seq![d2], urla, ValueModel::Text(u2));
            assert(matching_entids(Seq::<DatomModel>::empty(), urla, ValueModel::Text(u2))
                == Seq::<int>::empty());
            assert(matching_entids(app, urla, ValueModel::Text(u2)) =~= Seq::<int>::empty());
            assert(page_entids(m2, u2) =~= page_entids(m, u2));
        }
        // No visit can reference the fresh page yet.
        if matching_entids(m.datoms, vpa, ValueModel::Ref(m.next_e)).len() >= 1 {
            lemma_matching_exists(m.datoms, vpa, ValueModel::Ref(m.next_e));
            let i = choose|i: int|
                0 <= i < m.datoms.len() && (#[trigger] m.datoms[i]).a == vpa && m.datoms[i].v
                    == ValueModel::Ref(m.next_e);
            assert(false);
        }
        lemma_matching_entids_concat(m.datoms, app, vpa, ValueModel::Ref(m.next_e));
        lemma_matching_entids_front(app, vpa, ValueModel::Ref(m.next_e));
        lemma_matching_entids_front(seq![d1, d2], vpa, ValueModel::Ref(m.next_e));
        lemma_matching_entids_front(seq![d2], vpa, ValueModel::Ref(m.next_e));
        assert(matching_entids(Seq::<DatomModel>::empty(), vpa, ValueModel::Ref(m.next_e))
            == Seq::<int>::empty());
        assert(visit_entids_for_url(m2, url) =~= seq![m.next_e + 1]);
        assert(visit_entids_for_url(m, url) == Seq::<int>::empty());
        assert(visit_entids_for_url(m2, url) =~= visit_entids_for_url(m, url).push(
            res.unwrap(),
        ));
    } else {
        let p = pages[0];
        let d1 = DatomModel { e: m.next_e, a: vpa, v: ValueModel::Ref(p) };
        let d2 = DatomModel { e: m.next_e, a: vwa, v: ValueModel::Instant(when) };
        let app = seq![d1, d2];
        assert(m2.datoms == m.datoms + app);
        assert(app.drop_first() =~= seq![d2]);
        assert(seq![d2].drop_first() =~= Seq::<DatomModel>::empty());
        // The page set is untouched, for this url and for every other.
        assert forall|u2: Seq<char>| true implies #[trigger] page_entids(m2, u2) == page_entids(
            m,
            u2,
        ) by {
            lemma_matching_entids_concat(m.datoms, app, urla, ValueModel::Text(u2));
            lemma_matching_entids_front(app, urla, ValueModel::Text(u2));
            lemma_matching_entids_front(seq![d2], urla, ValueModel::Text(u2));
            assert(matching_entids(Seq::<DatomModel>::empty(), urla, ValueModel::Text(u2))
                == Seq::<int>::empty());
            assert(matching_entids(app, urla, ValueModel::Text(u2)) =~= Seq::<int>::empty());
            assert(page_entids(m2, u2) =~= page_entids(m, u2));
        }
        assert(page_entids(m2, url) == pages);
        // Exactly the new visit is appended for the page.
        lemma_matching_entids_concat(m.datoms, app, vpa, ValueModel::Ref(p));
        lemma_matching_entids_front(app, vpa, ValueModel::Ref(p));
        lemma_matching_entids_front(seq![d2], vpa, ValueModel::Ref(p));
        assert(matching_entids(Seq::<DatomModel>::empty(), vpa, ValueModel::Ref(p))
            == Seq::<int>::empty());
        assert(matching_entids(app, vpa, ValueModel::Ref(p)) =~= seq![m.next_e]);
        assert(visit_entids_for_url(m2, url) =~= visit_entids_for_url(m, url).push(
            res.unwrap(),
        ));
    }
}

/// The store after recording one visit for `url` per entry of `whens`, in
/// order.
pub open spec fn record_many(m: StoreModel, url: Seq<char>, whens: Seq<int>) -> StoreModel
    decreases whens.len(),
{
    if whens.len() == 0 {
        m
    } else {
        record_many(record_visit_model(m, url, whens[0]).0, url, whens.drop_first())
    }
}

/// Law: page identity is idempotent. However many visits are recorded for a
/// url, on an initialized store exactly one page row carries that url, and
/// it is the one the first recording settled on.
pub proof fn lemma_page_identity(m: StoreModel, url: Seq<char>, whens: Seq<int>)
    requires
        wf(m),
        profile_schema_coherent(m),
        initialized(m),
        whens.len() >= 1,
    ensures
        page_entids(record_many(m, url, whens), url).len() == 1,
        page_entids(record_many(m, url, whens), url) == page_entids(
            record_visit_model(m, url, whens[0]).0,
            url,
        ),
    decreases whens.len(),
{
    lemma_record_visit_step(m, url, whens[0]);
    let m1 = record_visit_model(m, url, whens[0]).0;
    let rest = whens.drop_first();
    if rest.len() == 0 {
        assert(record_many(m1, url, rest) == m1);
    } else {
        lemma_page_identity(m1, url, rest);
        lemma_record_visit_step(m1, url, rest[0]);
    }
}

/// Law: visit multiplicity. Recording a sequence of visits for a url grows
/// the set of visit rows referencing that url's page by exactly one row per
/// call, so on a store with no visits for the url yet, exactly as many
/// visits exist afterwards as were recorded.
pub proof fn lemma_visit_multiplicity(m: StoreModel, url: Seq<char>, whens: Seq<int>)
    requires
        wf(m),
        profile_schema_coherent(m),
        initialized(m),
    ensures
        visit_entids_for_url(record_many(m, url, whens), url).len() == visit_entids_for_url(
            m,
            url,
        ).len() + whens.len(),
    decreases whens.len(),
{
    if whens.len() > 0 {
        lemma_record_visit_step(m, url, whens[0]);
        let m1 = record_visit_model(m, url, whens[0]).0;
        lemma_visit_multiplicity(m1, url, whens.drop_first());
    }
}

/// Law: distinct urls get distinct pages. Recording visits for two
/// different urls leaves each with exactly one page row, and the two page
/// entities differ.
pub proof fn lemma_distinct_pages(
    m: StoreModel,
    u1: Seq<char>,
    u2: Seq<char>,
    t1: int,
    t2: int,
)
    requires
        wf(m),
        profile_schema_coherent(m),
        initialized(m),
        u1 != u2,
    ensures
        ({
            let m1 = record_visit_model(m, u1, t1).0;
            let m2 = record_visit_model(m1, u2, t2).0;
            &&& page_entids(m2, u1).len() == 1
            &&& page_entids(m2, u2).len() == 1
            &&& page_entids(m2, u1)[0] != page_entids(m2, u2)[0]
        }),
{
    lemma_record_visit_step(m, u1, t1);
    let m1 = record_visit_model(m, u1, t1).0;
    lemma_record_visit_step(m1, u2, t2);
    let m2 = record_visit_model(m1, u2, t2).0;
    let urla = entid_of(m2, Keyword::PageUrl).unwrap();
    assert(entid_of(m2, Keyword::PageUrl) == entid_of(m, Keyword::PageUrl));
    let p1 = page_entids(m2, u1)[0];
    let p2 = page_entids(m2, u2)[0];
    if p1 == p2 {
        lemma_lookup_vs_matching(m2.datoms, urla, ValueModel::Text(u1));
        lemma_lookup_unique_means(m2.datoms, urla, ValueModel::Text(u1));
        lemma_lookup_vs_matching(m2.datoms, urla, ValueModel::Text(u2));
        lemma_lookup_unique_means(m2.datoms, urla, ValueModel::Text(u2));
        let pd1 = DatomModel { e: p1, a: urla, v: ValueModel::Text(u1) };
        let pd2 = DatomModel { e: p2, a: urla, v: ValueModel::Text(u2) };
        assert(m2.datoms.contains(pd1));
        assert(m2.datoms.contains(pd2));
        let i = choose|i: int| 0 <= i < m2.datoms.len() && m2.datoms[i] == pd1;
        let j = choose|j: int| 0 <= j < m2.datoms.len() && m2.datoms[j] == pd2;
        lemma_named_entry_resolves(m2, Keyword::PageUrl);
        assert(!attr_of(m2, urla).unwrap().multival);
        assert(pd1 != pd2);
        if i < j {
            assert(m2.datoms[i].v == m2.datoms[j].v);
        } else {
            assert(m2.datoms[j].v == m2.datoms[i].v);
        }
        assert(ValueModel::Text(u1) == ValueModel::Text(u2));
        assert(false);
    }
}

/// Law: atomicity. A recording that fails leaves the store exactly as it
/// was; no page without its visit, and no visit without its page, can ever
/// be observed.
pub proof fn lemma_record_visit_atomic(m: StoreModel, url: Seq<char>, when: int)
    ensures
        record_visit_model(m, url, when).1 is Err ==> record_visit_model(m, url, when).0 == m,
{
}

} // verus!
