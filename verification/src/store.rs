//! The in-memory attribute store: datoms, schema, transactions, staged
//! assertions, and their submission.
//!
//! A writer opens a transaction with `Store::begin_transaction`, reads and
//! stages work against it, and makes the staged work durable with
//! `InProgress::commit`; a transaction that is dropped instead leaves the
//! store untouched. The store serializes writers externally: transaction
//! methods read the base store through a shared reference, and only `commit`
//! takes it exclusively.

use vstd::prelude::*;
use crate::error::ProfileError;
use crate::model::{
    apply_one, apply_terms, binds_wf, build_wf, empty_tx, ensure_vocab_model, entid_of,
    entry_for_entid, entry_for_name, install_missing,
    lemma_entry_for_entid_concat, lemma_entry_for_name_concat, lemma_lookup_ea_concat,
    lemma_lookup_unique_concat, lemma_matching_entids_concat, lemma_apply_one_ok,
    lemma_none_count_empty,
    lemma_none_count_pos, lemma_none_count_update, lemma_version_of_concat, lookup_ea,
    lookup_unique, matching_entids, matching_subjects, matching_values, none_count, page_entids,
    page_url_values, all_visit_entids, version_of, visit_entids_for_url, wf, with_tx, BuildModel,
    DatomModel, SchemaEntryModel, StoreModel, TermModel, TermValueModel, TxModel, ValueModel,
    VocabModel,
};
use crate::vocab::{Definition, Keyword, SchemaEntry, VocabEntry};

verus! {

/// A stored value: a reference to another entity, a text value, or an
/// instant held as microseconds since the epoch.
#[derive(Debug)]
pub enum TypedValue {
    Ref(i64),
    Text(String),
    Instant(i64),
}

impl View for TypedValue {
    type V = ValueModel;

    open spec fn view(&self) -> ValueModel {
        match self {
            TypedValue::Ref(e) => ValueModel::Ref(*e as int),
            TypedValue::Text(s) => ValueModel::Text(s@),
            TypedValue::Instant(t) => ValueModel::Instant(*t as int),
        }
    }
}

impl TypedValue {
    /// An instant value from microseconds since the epoch.
    pub fn instant(micros: i64) -> (v: TypedValue)
        ensures
            v@ == ValueModel::Instant(micros as int),
    {
        TypedValue::Instant(micros)
    }

    /// A copy with the same model.
    pub fn duplicate(&self) -> (r: TypedValue)
        ensures
            r@ == self@,
    {
        match self {
            TypedValue::Ref(e) => TypedValue::Ref(*e),
            TypedValue::Text(s) => TypedValue::Text(s.clone()),
            TypedValue::Instant(t) => TypedValue::Instant(*t),
        }
    }
}

impl PartialEq for TypedValue {
    fn eq(&self, other: &TypedValue) -> (r: bool) {
        match (self, other) {
            (TypedValue::Ref(a), TypedValue::Ref(b)) => *a == *b,
            (TypedValue::Text(a), TypedValue::Text(b)) => *a == *b,
            (TypedValue::Instant(a), TypedValue::Instant(b)) => *a == *b,
            _ => false,
        }
    }
}

impl vstd::std_specs::cmp::PartialEqSpecImpl for TypedValue {
    open spec fn obeys_eq_spec() -> bool {
        true
    }

    open spec fn eq_spec(&self, other: &TypedValue) -> bool {
        self@ == other@
    }
}

/// One datom: entity, attribute entity id, value.
#[derive(Debug)]
pub struct Datom {
    pub e: i64,
    pub a: i64,
    pub v: TypedValue,
}

impl View for Datom {
    type V = DatomModel;

    open spec fn view(&self) -> DatomModel {
        DatomModel { e: self.e as int, a: self.a as int, v: self.v@ }
    }
}

/// The models of a datom sequence.
pub open spec fn datoms_model(s: Seq<Datom>) -> Seq<DatomModel> {
    s.map_values(|d: Datom| d@)
}

/// The model of one installed schema entry.
pub open spec fn entry_model(x: SchemaEntry) -> SchemaEntryModel {
    SchemaEntryModel { name: x.name, e: x.entid as int, attribute: x.attribute }
}

/// The models of a schema entry sequence.
pub open spec fn schema_model(s: Seq<SchemaEntry>) -> Seq<SchemaEntryModel> {
    s.map_values(|x: SchemaEntry| entry_model(x))
}

/// The models of a vocabulary record sequence.
pub open spec fn vocabs_model(s: Seq<VocabEntry>) -> Seq<VocabModel> {
    s.map_values(|x: VocabEntry| VocabModel { name: x.name, version: x.version as int })
}

/// The model of an optional entity id.
pub open spec fn opt_model(o: Option<i64>) -> Option<int> {
    match o {
        Some(e) => Some(e as int),
        None => None,
    }
}

/// The models of a placeholder resolution table.
pub open spec fn binds_model(s: Seq<Option<i64>>) -> Seq<Option<int>> {
    s.map_values(|o: Option<i64>| opt_model(o))
}

/// The models of a sequence of entity ids.
pub open spec fn ids_model(s: Seq<i64>) -> Seq<int> {
    s.map_values(|x: i64| x as int)
}

/// The models of a sequence of values.
pub open spec fn values_model(s: Seq<TypedValue>) -> Seq<ValueModel> {
    s.map_values(|v: TypedValue| v@)
}

fn write_slot(binds: &mut Vec<Option<i64>>, i: usize, v: Option<i64>)
    requires
        i < old(binds)@.len(),
    ensures
        final(binds)@ == old(binds)@.update(i as int, v),
{
    let _replaced = binds.remove(i);
    binds.insert(i, v);
    proof {
        assert(binds@ =~= old(binds)@.update(i as int, v));
    }
}

fn datom_eq(x: &Datom, y: &Datom) -> (r: bool)
    ensures
        r == (x@ == y@),
{
    let r = x.e == y.e && x.a == y.a && x.v == y.v;
    proof {
        if r {
            assert(x@ =~= y@);
        }
    }
    r
}

// ---------------------------------------------------------------------------
// Scans. Each mirrors a first-match or collecting spec function; the pair
// variants run over a base sequence extended by a staged one.

fn find_version_in(vs: &Vec<VocabEntry>, name: Keyword) -> (r: Option<u32>)
    ensures
        match r {
            Some(ver) => version_of(vocabs_model(vs@), name) == Some(ver as int),
            None => version_of(vocabs_model(vs@), name) is None,
        },
{
    let ghost s = vocabs_model(vs@);
    proof {
        assert(s.skip(0) =~= s);
    }
    let mut i: usize = 0;
    while i < vs.len()
        invariant
            i <= vs.len(),
            s == vocabs_model(vs@),
            version_of(s, name) == version_of(s.skip(i as int), name),
        decreases vs.len() - i,
    {
        let entry = vs[i];
        proof {
            assert(s.skip(i as int)[0] == s[i as int]);
            assert(s.skip(i as int).drop_first() =~= s.skip(i as int + 1));
        }
        if entry.name == name {
            return Some(entry.version);
        }
        i = i + 1;
    }
    proof {
        assert(s.skip(i as int) =~= Seq::<VocabModel>::empty());
    }
    None
}

fn find_version(staged: &Vec<VocabEntry>, base: &Vec<VocabEntry>, name: Keyword) -> (r: Option<
    u32,
>)
    ensures
        match r {
            Some(ver) => version_of(vocabs_model(staged@) + vocabs_model(base@), name) == Some(
                ver as int,
            ),
            None => version_of(vocabs_model(staged@) + vocabs_model(base@), name) is None,
        },
{
    proof {
        lemma_version_of_concat(vocabs_model(staged@), vocabs_model(base@), name);
    }
    match find_version_in(staged, name) {
        Some(ver) => Some(ver),
        None => find_version_in(base, name),
    }
}

fn find_entry_by_name_in(vs: &Vec<SchemaEntry>, name: Keyword) -> (r: Option<SchemaEntry>)
    ensures
        match r {
            Some(entry) => entry_for_name(schema_model(vs@), name) == Some(entry_model(entry)),
            None => entry_for_name(schema_model(vs@), name) is None,
        },
{
    let ghost s = schema_model(vs@);
    proof {
        assert(s.skip(0) =~= s);
    }
    let mut i: usize = 0;
    while i < vs.len()
        invariant
            i <= vs.len(),
            s == schema_model(vs@),
            entry_for_name(s, name) == entry_for_name(s.skip(i as int), name),
        decreases vs.len() - i,
    {
        let entry = vs[i];
        proof {
            assert(s.skip(i as int)[0] == s[i as int]);
            assert(s.skip(i as int).drop_first() =~= s.skip(i as int + 1));
        }
        if entry.name == name {
            return Some(entry);
        }
        i = i + 1;
    }
    proof {
        assert(s.skip(i as int) =~= Seq::<SchemaEntryModel>::empty());
    }
    None
}

fn find_entry_by_name(base: &Vec<SchemaEntry>, staged: &Vec<SchemaEntry>, name: Keyword) -> (r:
    Option<SchemaEntry>)
    ensures
        match r {
            Some(entry) => entry_for_name(schema_model(base@) + schema_model(staged@), name)
                == Some(entry_model(entry)),
            None => entry_for_name(schema_model(base@) + schema_model(staged@), name) is None,
        },
{
    proof {
        lemma_entry_for_name_concat(schema_model(base@), schema_model(staged@), name);
    }
    match find_entry_by_name_in(base, name) {
        Some(entry) => Some(entry),
        None => find_entry_by_name_in(staged, name),
    }
}

fn find_entry_by_entid_in(vs: &Vec<SchemaEntry>, a: i64) -> (r: Option<SchemaEntry>)
    ensures
        match r {
            Some(entry) => entry_for_entid(schema_model(vs@), a as int) == Some(
                entry_model(entry),
            ),
            None => entry_for_entid(schema_model(vs@), a as int) is None,
        },
{
    let ghost s = schema_model(vs@);
    proof {
        assert(s.skip(0) =~= s);
    }
    let mut i: usize = 0;
    while i < vs.len()
        invariant
            i <= vs.len(),
            s == schema_model(vs@),
            entry_for_entid(s, a as int) == entry_for_entid(s.skip(i as int), a as int),
        decreases vs.len() - i,
    {
        let entry = vs[i];
        proof {
            assert(s.skip(i as int)[0] == s[i as int]);
            assert(s.skip(i as int).drop_first() =~= s.skip(i as int + 1));
        }
        if entry.entid == a {
            return Some(entry);
        }
        i = i + 1;
    }
    proof {
        assert(s.skip(i as int) =~= Seq::<SchemaEntryModel>::empty());
    }
    None
}

fn find_entry_by_entid(base: &Vec<SchemaEntry>, staged: &Vec<SchemaEntry>, a: i64) -> (r: Option<
    SchemaEntry,
>)
    ensures
        match r {
            Some(entry) => entry_for_entid(schema_model(base@) + schema_model(staged@), a as int)
                == Some(entry_model(entry)),
            None => entry_for_entid(schema_model(base@) + schema_model(staged@), a as int) is None,
        },
{
    proof {
        lemma_entry_for_entid_concat(schema_model(base@), schema_model(staged@), a as int);
    }
    match find_entry_by_entid_in(base, a) {
        Some(entry) => Some(entry),
        None => find_entry_by_entid_in(staged, a),
    }
}

fn lookup_unique_in(ds: &Vec<Datom>, a: i64, v: &TypedValue) -> (r: Option<i64>)
    ensures
        match r {
            Some(e) => lookup_unique(datoms_model(ds@), a as int, v@) == Some(e as int),
            None => lookup_unique(datoms_model(ds@), a as int, v@) is None,
        },
{
    let ghost s = datoms_model(ds@);
    proof {
        assert(s.skip(0) =~= s);
    }
    let mut i: usize = 0;
    while i < ds.len()
        invariant
            i <= ds.len(),
            s == datoms_model(ds@),
            lookup_unique(s, a as int, v@) == lookup_unique(s.skip(i as int), a as int, v@),
        decreases ds.len() - i,
    {
        proof {
            assert(s.skip(i as int)[0] == s[i as int]);
            assert(s.skip(i as int).drop_first() =~= s.skip(i as int + 1));
        }
        if ds[i].a == a && ds[i].v == *v {
            return Some(ds[i].e);
        }
        i = i + 1;
    }
    proof {
        assert(s.skip(i as int) =~= Seq::<DatomModel>::empty());
    }
    None
}

fn lookup_unique_pair(base: &Vec<Datom>, added: &Vec<Datom>, a: i64, v: &TypedValue) -> (r: Option<
    i64,
>)
    ensures
        match r {
            Some(e) => lookup_unique(datoms_model(base@) + datoms_model(added@), a as int, v@)
                == Some(e as int),
            None => lookup_unique(datoms_model(base@) + datoms_model(added@), a as int, v@)
                is None,
        },
{
    proof {
        lemma_lookup_unique_concat(datoms_model(base@), datoms_model(added@), a as int, v@);
    }
    match lookup_unique_in(base, a, v) {
        Some(e) => Some(e),
        None => lookup_unique_in(added, a, v),
    }
}

fn has_ea_in(ds: &Vec<Datom>, e: i64, a: i64) -> (r: bool)
    ensures
        r == (lookup_ea(datoms_model(ds@), e as int, a as int) is Some),
{
    let ghost s = datoms_model(ds@);
    proof {
        assert(s.skip(0) =~= s);
    }
    let mut i: usize = 0;
    while i < ds.len()
        invariant
            i <= ds.len(),
            s == datoms_model(ds@),
            lookup_ea(s, e as int, a as int) == lookup_ea(s.skip(i as int), e as int, a as int),
        decreases ds.len() - i,
    {
        proof {
            assert(s.skip(i as int)[0] == s[i as int]);
            assert(s.skip(i as int).drop_first() =~= s.skip(i as int + 1));
        }
        if ds[i].e == e && ds[i].a == a {
            return true;
        }
        i = i + 1;
    }
    proof {
        assert(s.skip(i as int) =~= Seq::<DatomModel>::empty());
    }
    false
}

fn has_ea_pair(base: &Vec<Datom>, added: &Vec<Datom>, e: i64, a: i64) -> (r: bool)
    ensures
        r == (lookup_ea(datoms_model(base@) + datoms_model(added@), e as int, a as int) is Some),
{
    proof {
        lemma_lookup_ea_concat(datoms_model(base@), datoms_model(added@), e as int, a as int);
    }
    if has_ea_in(base, e, a) {
        true
    } else {
        has_ea_in(added, e, a)
    }
}

fn contains_datom_in(ds: &Vec<Datom>, d: &Datom) -> (r: bool)
    ensures
        r == datoms_model(ds@).contains(d@),
{
    let ghost s = datoms_model(ds@);
    let mut i: usize = 0;
    while i < ds.len()
        invariant
            i <= ds.len(),
            s == datoms_model(ds@),
            forall|j: int| 0 <= j < i ==> s[j] != d@,
        decreases ds.len() - i,
    {
        if datom_eq(&ds[i], d) {
            proof {
                assert(s[i as int] == d@);
            }
            return true;
        }
        i = i + 1;
    }
    false
}

fn contains_datom_pair(base: &Vec<Datom>, added: &Vec<Datom>, d: &Datom) -> (r: bool)
    ensures
        r == (datoms_model(base@) + datoms_model(added@)).contains(d@),
{
    let ghost full = datoms_model(base@) + datoms_model(added@);
    let r = if contains_datom_in(base, d) {
        true
    } else {
        contains_datom_in(added, d)
    };
    proof {
        let b = datoms_model(base@);
        let t = datoms_model(added@);
        if r {
            if b.contains(d@) {
                let k = choose|k: int| 0 <= k < b.len() && b[k] == d@;
                assert(full[k] == d@);
            } else {
                let k = choose|k: int| 0 <= k < t.len() && t[k] == d@;
                assert(full[b.len() + k] == d@);
            }
        } else {
            assert forall|k: int| 0 <= k < full.len() implies full[k] != d@ by {
                if k < b.len() {
                    assert(full[k] == b[k]);
                } else {
                    assert(full[k] == t[k - b.len()]);
                }
            }
        }
    }
    r
}

fn collect_entids_in(ds: &Vec<Datom>, out: &mut Vec<i64>, a: i64, v: &TypedValue)
    ensures
        ids_model(final(out)@) == ids_model(old(out)@) + matching_entids(
            datoms_model(ds@),
            a as int,
            v@,
        ),
{
    let ghost s = datoms_model(ds@);
    let ghost base = out@;
    proof {
        assert(s.take(0) =~= Seq::<DatomModel>::empty());
        assert(ids_model(out@) =~= ids_model(base) + matching_entids(s.take(0), a as int, v@));
    }
    let mut i: usize = 0;
    while i < ds.len()
        invariant
            i <= ds.len(),
            s == datoms_model(ds@),
            ids_model(out@) == ids_model(base) + matching_entids(s.take(i as int), a as int, v@),
        decreases ds.len() - i,
    {
        proof {
            assert(s.take(i as int + 1).drop_last() =~= s.take(i as int));
            assert(s.take(i as int + 1).last() == s[i as int]);
        }
        let ghost prev = out@;
        if ds[i].a == a && ds[i].v == *v {
            out.push(ds[i].e);
            proof {
                assert(s[i as int].a == a as int && s[i as int].v == v@);
                assert(matching_entids(s.take(i as int + 1), a as int, v@) =~= matching_entids(
                    s.take(i as int),
                    a as int,
                    v@,
                ) + seq![s[i as int].e]);
                assert(ids_model(out@) =~= ids_model(prev).push(s[i as int].e));
                assert(ids_model(out@) =~= ids_model(base) + matching_entids(
                    s.take(i as int + 1),
                    a as int,
                    v@,
                ));
            }
        } else {
            proof {
                assert(!(s[i as int].a == a as int && s[i as int].v == v@));
                assert(matching_entids(s.take(i as int + 1), a as int, v@) =~= matching_entids(
                    s.take(i as int),
                    a as int,
                    v@,
                ));
            }
        }
        i = i + 1;
    }
    proof {
        assert(s.take(ds@.len() as int) =~= s);
    }
}

fn collect_entids_pair(base: &Vec<Datom>, added: &Vec<Datom>, a: i64, v: &TypedValue) -> (r: Vec<
    i64,
>)
    ensures
        ids_model(r@) == matching_entids(
            datoms_model(base@) + datoms_model(added@),
            a as int,
            v@,
        ),
{
    proof {
        lemma_matching_entids_concat(datoms_model(base@), datoms_model(added@), a as int, v@);
    }
    let mut out: Vec<i64> = Vec::new();
    proof {
        assert(ids_model(out@) =~= Seq::<int>::empty());
    }
    collect_entids_in(base, &mut out, a, v);
    collect_entids_in(added, &mut out, a, v);
    proof {
        assert(Seq::<int>::empty() + matching_entids(datoms_model(base@), a as int, v@)
            =~= matching_entids(datoms_model(base@), a as int, v@));
    }
    out
}

fn collect_subjects_in(ds: &Vec<Datom>, a: i64) -> (r: Vec<i64>)
    ensures
        ids_model(r@) == matching_subjects(datoms_model(ds@), a as int),
{
    let ghost s = datoms_model(ds@);
    let mut out: Vec<i64> = Vec::new();
    proof {
        assert(ids_model(out@) =~= Seq::<int>::empty());
        assert(matching_subjects(s.take(0), a as int) =~= Seq::<int>::empty()) by {
            assert(s.take(0) =~= Seq::<DatomModel>::empty());
        }
    }
    let mut i: usize = 0;
    while i < ds.len()
        invariant
            i <= ds.len(),
            s == datoms_model(ds@),
            ids_model(out@) == matching_subjects(s.take(i as int), a as int),
        decreases ds.len() - i,
    {
        proof {
            assert(s.take(i as int + 1).drop_last() =~= s.take(i as int));
            assert(s.take(i as int + 1).last() == s[i as int]);
        }
        let ghost prev = out@;
        if ds[i].a == a {
            out.push(ds[i].e);
            proof {
                assert(matching_subjects(s.take(i as int + 1), a as int) =~= matching_subjects(
                    s.take(i as int),
                    a as int,
                ) + seq![s[i as int].e]);
                assert(ids_model(out@) =~= ids_model(prev).push(s[i as int].e));
            }
        } else {
            proof {
                assert(matching_subjects(s.take(i as int + 1), a as int) =~= matching_subjects(
                    s.take(i as int),
                    a as int,
                ));
            }
        }
        proof {
            assert(ids_model(out@) =~= matching_subjects(s.take(i as int + 1), a as int));
        }
        i = i + 1;
    }
    proof {
        assert(s.take(ds@.len() as int) =~= s);
    }
    out
}

fn collect_values_in(ds: &Vec<Datom>, a: i64) -> (r: Vec<TypedValue>)
    ensures
        values_model(r@) == matching_values(datoms_model(ds@), a as int),
{
    let ghost s = datoms_model(ds@);
    let mut out: Vec<TypedValue> = Vec::new();
    proof {
        assert(values_model(out@) =~= Seq::<ValueModel>::empty());
        assert(matching_values(s.take(0), a as int) =~= Seq::<ValueModel>::empty()) by {
            assert(s.take(0) =~= Seq::<DatomModel>::empty());
        }
    }
    let mut i: usize = 0;
    while i < ds.len()
        invariant
            i <= ds.len(),
            s == datoms_model(ds@),
            values_model(out@) == matching_values(s.take(i as int), a as int),
        decreases ds.len() - i,
    {
        proof {
            assert(s.take(i as int + 1).drop_last() =~= s.take(i as int));
            assert(s.take(i as int + 1).last() == s[i as int]);
        }
        let ghost prev = out@;
        if ds[i].a == a {
            out.push(ds[i].v.duplicate());
            proof {
                assert(matching_values(s.take(i as int + 1), a as int) =~= matching_values(
                    s.take(i as int),
                    a as int,
                ) + seq![s[i as int].v]);
                assert(values_model(out@) =~= values_model(prev).push(s[i as int].v));
            }
        } else {
            proof {
                assert(matching_values(s.take(i as int + 1), a as int) =~= matching_values(
                    s.take(i as int),
                    a as int,
                ));
            }
        }
        proof {
            assert(values_model(out@) =~= matching_values(s.take(i as int + 1), a as int));
        }
        i = i + 1;
    }
    proof {
        assert(s.take(ds@.len() as int) =~= s);
    }
    out
}

// ---------------------------------------------------------------------------
// The store.

/// The store: installed vocabularies and schema, the next entity id it will
/// assign, and its datoms.
pub struct Store {
    vocabs: Vec<VocabEntry>,
    schema: Vec<SchemaEntry>,
    next_entid: i64,
    datoms: Vec<Datom>,
}

impl View for Store {
    type V = StoreModel;

    closed spec fn view(&self) -> StoreModel {
        StoreModel {
            vocabs: vocabs_model(self.vocabs@),
            schema: schema_model(self.schema@),
            next_e: self.next_entid as int,
            datoms: datoms_model(self.datoms@),
        }
    }
}

/// The model of a fresh, empty store.
pub open spec fn empty_store_model() -> StoreModel {
    StoreModel { vocabs: Seq::empty(), schema: Seq::empty(), next_e: 1, datoms: Seq::empty() }
}

impl Store {
    /// Validity: the store's model is well-formed. Every store this crate
    /// hands out satisfies it, and every operation preserves it.
    pub open spec fn inv(&self) -> bool {
        wf(self@)
    }

    /// An empty in-memory store.
    pub fn new() -> (s: Store)
        ensures
            s@ == empty_store_model(),
            s.inv(),
    {
        let s = Store { vocabs: Vec::new(), schema: Vec::new(), next_entid: 1, datoms: Vec::new() };
        proof {
            assert(s@ =~~= empty_store_model());
        }
        s
    }

    /// Whether `n` more entity ids can still be assigned.
    pub fn can_allocate(&self, n: i64) -> (b: bool)
        requires
            0 <= n,
        ensures
            b == (self@.next_e + n <= i64::MAX),
    {
        self.next_entid <= i64::MAX - n
    }

    /// Open a transaction against this store. Other writers are serialized
    /// externally; the transaction reads the store as it stands and stages
    /// its own work on top.
    pub fn begin_transaction(&mut self) -> (tx: InProgress)
        ensures
            *final(self) == *old(self),
            tx@ == empty_tx(old(self)@.next_e),
            with_tx(old(self)@, tx@) == old(self)@,
    {
        let tx = InProgress {
            vocabs_staged: Vec::new(),
            schema_staged: Vec::new(),
            next_entid: self.next_entid,
            added: Vec::new(),
        };
        proof {
            assert(tx@ =~~= empty_tx(self@.next_e));
            assert(with_tx(self@, tx@) =~~= self@);
        }
        tx
    }

    /// All recorded page urls, in datom order.
    pub fn all_page_urls(&self) -> (r: Vec<TypedValue>)
        ensures
            values_model(r@) == page_url_values(self@),
    {
        match find_entry_by_name_in(&self.schema, Keyword::PageUrl) {
            Some(entry) => collect_values_in(&self.datoms, entry.entid),
            None => {
                let r: Vec<TypedValue> = Vec::new();
                proof {
                    assert(values_model(r@) =~= Seq::<ValueModel>::empty());
                }
                r
            },
        }
    }

    /// All visit entities: the entities referencing a page, in datom order.
    pub fn all_visit_entids(&self) -> (r: Vec<i64>)
        ensures
            ids_model(r@) == all_visit_entids(self@),
    {
        match find_entry_by_name_in(&self.schema, Keyword::VisitPage) {
            Some(entry) => collect_subjects_in(&self.datoms, entry.entid),
            None => {
                let r: Vec<i64> = Vec::new();
                proof {
                    assert(ids_model(r@) =~= Seq::<int>::empty());
                }
                r
            },
        }
    }

    /// The visit entities referencing the canonical page of `url`, in datom
    /// order; empty when no page is recorded for it.
    pub fn visit_entids_for_url(&self, url: &String) -> (r: Vec<i64>)
        ensures
            ids_model(r@) == visit_entids_for_url(self@, url@),
    {
        let urla = match find_entry_by_name_in(&self.schema, Keyword::PageUrl) {
            Some(entry) => entry.entid,
            None => {
                let r: Vec<i64> = Vec::new();
                proof {
                    assert(ids_model(r@) =~= Seq::<int>::empty());
                }
                return r;
            },
        };
        let key = TypedValue::Text(url.clone());
        let ghost s = datoms_model(self.datoms@);
        let mut pages: Vec<i64> = Vec::new();
        proof {
            assert(ids_model(pages@) =~= Seq::<int>::empty());
            assert(Seq::<int>::empty() + matching_entids(s, urla as int, key@) =~= matching_entids(
                s,
                urla as int,
                key@,
            ));
        }
        collect_entids_in(&self.datoms, &mut pages, urla, &key);
        if pages.len() == 0 {
            let r: Vec<i64> = Vec::new();
            proof {
                assert(ids_model(r@) =~= Seq::<int>::empty());
            }
            return r;
        }
        let p = pages[0];
        let vpa = match find_entry_by_name_in(&self.schema, Keyword::VisitPage) {
            Some(entry) => entry.entid,
            None => {
                let r: Vec<i64> = Vec::new();
                proof {
                    assert(ids_model(r@) =~= Seq::<int>::empty());
                }
                return r;
            },
        };
        let pref = TypedValue::Ref(p);
        let mut visits: Vec<i64> = Vec::new();
        proof {
            assert(ids_model(visits@) =~= Seq::<int>::empty());
            assert(page_entids(self@, url@)[0] == p as int);
            assert(Seq::<int>::empty() + matching_entids(s, vpa as int, pref@) =~= matching_entids(
                s,
                vpa as int,
                pref@,
            ));
        }
        collect_entids_in(&self.datoms, &mut visits, vpa, &pref);
        visits
    }
}

// ---------------------------------------------------------------------------
// Transactions.

/// An open transaction: everything it has staged on top of its base store.
/// Dropping it without committing leaves the store untouched.
pub struct InProgress {
    vocabs_staged: Vec<VocabEntry>,
    schema_staged: Vec<SchemaEntry>,
    next_entid: i64,
    added: Vec<Datom>,
}

impl View for InProgress {
    type V = TxModel;

    closed spec fn view(&self) -> TxModel {
        TxModel {
            vocabs_staged: vocabs_model(self.vocabs_staged@),
            schema_staged: schema_model(self.schema_staged@),
            next_e: self.next_entid as int,
            added: datoms_model(self.added@),
        }
    }
}

impl InProgress {
    /// Resolve an attribute name to its entity id, within this transaction's
    /// read view.
    pub fn get_entid(&self, store: &Store, name: Keyword) -> (r: Option<i64>)
        ensures
            opt_model(r) == entid_of(with_tx(store@, self@), name),
    {
        match find_entry_by_name(&store.schema, &self.schema_staged, name) {
            Some(entry) => Some(entry.entid),
            None => None,
        }
    }

    /// Look up the page entities recorded for `url`, within this
    /// transaction's read view. Fails when the url attribute is not
    /// installed — the store was not initialized.
    pub fn q_once_pages(&self, store: &Store, url: &String) -> (r: Result<
        Vec<i64>,
        ProfileError,
    >)
        ensures
            match r {
                Ok(ids) => entid_of(with_tx(store@, self@), Keyword::PageUrl) is Some && ids_model(
                    ids@,
                ) == page_entids(with_tx(store@, self@), url@),
                Err(e) => entid_of(with_tx(store@, self@), Keyword::PageUrl) is None && e
                    == ProfileError::AttributeNotFound(Keyword::PageUrl),
            },
    {
        let urla = match find_entry_by_name(&store.schema, &self.schema_staged, Keyword::PageUrl) {
            Some(entry) => entry.entid,
            None => {
                return Err(ProfileError::AttributeNotFound(Keyword::PageUrl));
            },
        };
        let key = TypedValue::Text(url.clone());
        Ok(collect_entids_pair(&store.datoms, &self.added, urla, &key))
    }

    /// Idempotently ensure a named, versioned vocabulary: a no-op when the
    /// recorded version already satisfies the definition, otherwise the
    /// missing attributes are installed under fresh entity ids and the
    /// version recorded, all staged in this transaction.
    pub fn ensure_vocabulary(&mut self, store: &Store, definition: &Definition) -> (r: Result<
        (),
        ProfileError,
    >)
        requires
            with_tx(store@, old(self)@).next_e + definition.attributes@.len() <= i64::MAX,
        ensures
            r is Ok,
            with_tx(store@, final(self)@) == ensure_vocab_model(
                with_tx(store@, old(self)@),
                definition.name,
                definition.version as int,
                definition.attributes@,
            ),
    {
        let ghost m0 = with_tx(store@, self@);
        let satisfied = match find_version(&self.vocabs_staged, &store.vocabs, definition.name) {
            Some(ver) => ver >= definition.version,
            None => false,
        };
        if satisfied {
            return Ok(());
        }
        let ghost schema0 = m0.schema;
        let ghost next0 = m0.next_e;
        let ghost attrs = definition.attributes@;
        proof {
            assert(attrs.skip(0) =~= attrs);
        }
        let mut k: usize = 0;
        while k < definition.attributes.len()
            invariant
                k <= definition.attributes.len(),
                attrs == definition.attributes@,
                self@.vocabs_staged == old(self)@.vocabs_staged,
                self@.added == old(self)@.added,
                install_missing(schema0, attrs, next0) == install_missing(
                    with_tx(store@, self@).schema,
                    attrs.skip(k as int),
                    with_tx(store@, self@).next_e,
                ),
                with_tx(store@, self@).next_e + (attrs.len() - k) <= i64::MAX,
            decreases definition.attributes.len() - k,
        {
            let (name, attribute) = definition.attributes[k];
            let ghost mcur = with_tx(store@, self@);
            proof {
                assert(attrs.skip(k as int)[0] == attrs[k as int]);
                assert(attrs.skip(k as int).drop_first() =~= attrs.skip(k as int + 1));
            }
            match find_entry_by_name(&store.schema, &self.schema_staged, name) {
                Some(_) => {
                    proof {
                        assert(entry_for_name(mcur.schema, name) is Some);
                    }
                },
                None => {
                    let entid = self.next_entid;
                    self.next_entid = self.next_entid + 1;
                    self.schema_staged.push(SchemaEntry { name, entid, attribute });
                    proof {
                        assert(schema_model(self.schema_staged@) =~= mcur.schema.skip(
                            store@.schema.len() as int,
                        ).push(SchemaEntryModel { name: name, e: entid as int, attribute }));
                        assert(with_tx(store@, self@).schema =~= mcur.schema.push(
                            SchemaEntryModel { name: name, e: entid as int, attribute },
                        ));
                    }
                },
            }
            k = k + 1;
        }
        proof {
            assert(attrs.skip(k as int) =~= Seq::<(Keyword, crate::vocab::Attribute)>::empty());
        }
        self.vocabs_staged.insert(0, VocabEntry { name: definition.name, version: definition.version });
        proof {
            let recorded = VocabModel { name: definition.name, version: definition.version as int };
            assert(vocabs_model(self.vocabs_staged@) =~= seq![recorded] + old(self)@.vocabs_staged);
            assert(with_tx(store@, self@).vocabs =~= seq![recorded] + m0.vocabs);
            assert(with_tx(store@, self@) =~~= ensure_vocab_model(
                m0,
                definition.name,
                definition.version as int,
                attrs,
            ));
        }
        Ok(())
    }

    /// Make the staged work durable: everything this transaction would add
    /// becomes part of the store, atomically.
    pub fn commit(self, store: &mut Store) -> (r: Result<(), ProfileError>)
        ensures
            r is Ok,
            final(store)@ == with_tx(old(store)@, self@),
    {
        let ghost txm = self@;
        let ghost base = old(store)@;
        let InProgress { vocabs_staged: mut new_vocabs, schema_staged: mut staged_schema, next_entid, added: mut new_datoms } =
            self;
        new_vocabs.append(&mut store.vocabs);
        store.vocabs = new_vocabs;
        store.schema.append(&mut staged_schema);
        store.next_entid = next_entid;
        store.datoms.append(&mut new_datoms);
        proof {
            assert(vocabs_model(store.vocabs@) =~= txm.vocabs_staged + base.vocabs);
            assert(schema_model(store.schema@) =~= base.schema + txm.schema_staged);
            assert(datoms_model(store.datoms@) =~= base.datoms + txm.added);
            assert(store@ =~~= with_tx(base, txm));
        }
        Ok(())
    }
}

// ---------------------------------------------------------------------------
// Staged assertions.

/// A transaction-scoped placeholder id, distinct from a persisted entity id.
/// It exists only between `TermBuilder::named_tempid` and the report of the
/// submission that resolves it.
#[derive(Clone, Copy, Debug)]
pub struct TempEntid {
    index: usize,
}

impl View for TempEntid {
    type V = int;

    closed spec fn view(&self) -> int {
        self.index as int
    }
}

enum TermValue {
    Value(TypedValue),
    Placeholder(TempEntid),
}

struct Term {
    t: usize,
    a: i64,
    v: TermValue,
}

spec fn term_value_model(v: TermValue) -> TermValueModel {
    match v {
        TermValue::Value(tv) => TermValueModel::Val(tv@),
        TermValue::Placeholder(t) => TermValueModel::Temp(t@),
    }
}

spec fn term_model(t: Term) -> TermModel {
    TermModel { t: t.t as int, a: t.a as int, v: term_value_model(t.v) }
}

spec fn terms_model(s: Seq<Term>) -> Seq<TermModel> {
    s.map_values(|t: Term| term_model(t))
}

/// A builder of staged assertions: it allocates placeholder ids and collects
/// assertions against them, to be submitted in one go.
pub struct TermBuilder {
    ntemp: usize,
    terms: Vec<Term>,
}

impl View for TermBuilder {
    type V = BuildModel;

    closed spec fn view(&self) -> BuildModel {
        BuildModel { ntemp: self.ntemp as int, terms: terms_model(self.terms@) }
    }
}

impl TermBuilder {
    /// Whether every staged assertion speaks only of placeholders this
    /// builder allocated.
    pub open spec fn wf(&self) -> bool {
        build_wf(self@)
    }

    /// An empty builder.
    pub fn new() -> (b: TermBuilder)
        ensures
            b@ == (BuildModel { ntemp: 0, terms: Seq::empty() }),
            b.wf(),
    {
        let b = TermBuilder { ntemp: 0, terms: Vec::new() };
        proof {
            assert(b@ =~~= (BuildModel { ntemp: 0, terms: Seq::empty() }));
        }
        b
    }

    /// Allocate a fresh placeholder. The name serves diagnostics only; the
    /// handle resolves by position in the submission report.
    pub fn named_tempid(&mut self, _name: &str) -> (t: TempEntid)
        requires
            old(self)@.ntemp < usize::MAX,
        ensures
            final(self)@.ntemp == old(self)@.ntemp + 1,
            final(self)@.terms == old(self)@.terms,
            t@ == old(self)@.ntemp,
            old(self).wf() ==> final(self).wf(),
    {
        let t = TempEntid { index: self.ntemp };
        self.ntemp = self.ntemp + 1;
        t
    }

    /// Stage the assertion `e.a = v`.
    pub fn add(&mut self, e: TempEntid, a: i64, v: TypedValue)
        requires
            0 <= e@ < old(self)@.ntemp,
        ensures
            final(self)@.ntemp == old(self)@.ntemp,
            final(self)@.terms == old(self)@.terms.push(
                TermModel { t: e@, a: a as int, v: TermValueModel::Val(v@) },
            ),
            old(self).wf() ==> final(self).wf(),
    {
        let ghost vm = v@;
        self.terms.push(Term { t: e.index, a, v: TermValue::Value(v) });
        proof {
            assert(terms_model(self.terms@) =~= old(self)@.terms.push(
                TermModel { t: e.index as int, a: a as int, v: TermValueModel::Val(vm) },
            ));
        }
    }

    /// Stage the assertion `e.a = r`, where the value is itself a
    /// placeholder resolved in the same submission.
    pub fn add_temp(&mut self, e: TempEntid, a: i64, r: TempEntid)
        requires
            0 <= e@ < old(self)@.ntemp,
            0 <= r@ < old(self)@.ntemp,
        ensures
            final(self)@.ntemp == old(self)@.ntemp,
            final(self)@.terms == old(self)@.terms.push(
                TermModel { t: e@, a: a as int, v: TermValueModel::Temp(r@) },
            ),
            old(self).wf() ==> final(self).wf(),
    {
        self.terms.push(Term { t: e.index, a, v: TermValue::Placeholder(r) });
        proof {
            assert(terms_model(self.terms@) =~= old(self)@.terms.push(
                TermModel { t: e.index as int, a: a as int, v: TermValueModel::Temp(r.index as int) },
            ));
        }
    }
}

/// The result of a submission: the resolution table from placeholder ids to
/// the entity ids they ended up naming.
pub struct TxReport {
    tempids: Vec<Option<i64>>,
}

impl View for TxReport {
    type V = Seq<Option<int>>;

    closed spec fn view(&self) -> Seq<Option<int>> {
        binds_model(self.tempids@)
    }
}

impl TxReport {
    /// The entity id a placeholder resolved to, if it was used.
    pub fn get(&self, t: TempEntid) -> (r: Option<i64>)
        ensures
            0 <= t@ < self@.len() ==> opt_model(r) == self@[t@],
            !(0 <= t@ < self@.len()) ==> r is None,
    {
        if t.index < self.tempids.len() {
            self.tempids[t.index]
        } else {
            None
        }
    }
}

impl InProgress {
    /// Submit staged assertions within this transaction: placeholders are
    /// resolved — reusing the entity that owns an asserted unique value, or
    /// allocating fresh ids — the resulting datoms join the transaction's
    /// staged additions, and the resolution table is reported. A failed
    /// submission leaves the transaction unchanged.
    pub fn transact_builder(&mut self, store: &Store, builder: TermBuilder) -> (r: Result<
        TxReport,
        ProfileError,
    >)
        requires
            wf(with_tx(store@, old(self)@)),
            builder.wf(),
            with_tx(store@, old(self)@).next_e + builder@.ntemp <= i64::MAX,
        ensures
            ({
                let m0 = with_tx(store@, old(self)@);
                let b0 = Seq::new(builder@.ntemp as nat, |k: int| None::<int>);
                match apply_terms(m0, b0, builder@.terms) {
                    Ok((m2, b2)) => {
                        &&& r matches Ok(rep) && rep@ == b2
                        &&& with_tx(store@, final(self)@) == m2
                        &&& wf(m2)
                        &&& final(self)@.vocabs_staged == old(self)@.vocabs_staged
                        &&& final(self)@.schema_staged == old(self)@.schema_staged
                    },
                    Err(e) => r == Err::<TxReport, ProfileError>(e) && final(self)@ == old(
                        self,
                    )@,
                }
            }),
    {
        let ghost m0 = with_tx(store@, self@);
        let ghost b0 = Seq::new(builder@.ntemp as nat, |k: int| None::<int>);
        let mut binds: Vec<Option<i64>> = Vec::new();
        let mut z: usize = 0;
        while z < builder.ntemp
            invariant
                z <= builder.ntemp,
                binds@.len() == z,
                forall|j: int| 0 <= j < z ==> (#[trigger] binds@[j]) is None,
            decreases builder.ntemp - z,
        {
            binds.push(None);
            z = z + 1;
        }
        proof {
            assert(binds_model(binds@) =~= b0);
            lemma_none_count_empty(builder@.ntemp as nat);
            assert(none_count(b0) == builder@.ntemp);
            assert(binds_wf(m0, b0));
            assert(builder@.terms.skip(0) =~= builder@.terms);
            assert(old(self).added@.is_prefix_of(self.added@)) by {
                assert(self.added@.take(old(self).added@.len() as int) =~= old(self).added@);
            }
        }
        let orig_len = self.added.len();
        let orig_next = self.next_entid;
        let mut i: usize = 0;
        while i < builder.terms.len()
            invariant
                i <= builder.terms.len(),
                builder.wf(),
                binds@.len() == builder@.ntemp,
                orig_len == old(self).added@.len(),
                orig_next as int == old(self)@.next_e,
                m0 == with_tx(store@, old(self)@),
                b0 == Seq::new(builder@.ntemp as nat, |k: int| None::<int>),
                m0.next_e + builder@.ntemp <= i64::MAX,
                self@.vocabs_staged == old(self)@.vocabs_staged,
                self@.schema_staged == old(self)@.schema_staged,
                self.schema_staged@ == old(self).schema_staged@,
                wf(with_tx(store@, self@)),
                binds_wf(with_tx(store@, self@), binds_model(binds@)),
                with_tx(store@, self@).next_e + none_count(binds_model(binds@)) <= m0.next_e
                    + builder@.ntemp,
                apply_terms(m0, b0, builder@.terms) == apply_terms(
                    with_tx(store@, self@),
                    binds_model(binds@),
                    builder@.terms.skip(i as int),
                ),
                old(self).added@.is_prefix_of(self.added@),
            decreases builder.terms.len() - i,
        {
            let ghost mcur = with_tx(store@, self@);
            let ghost bcur = binds_model(binds@);
            let ghost tm = builder@.terms[i as int];
            proof {
                assert(tm == term_model(builder.terms@[i as int]));
                assert(builder@.terms.skip(i as int)[0] == tm);
                assert(builder@.terms.skip(i as int).drop_first() =~= builder@.terms.skip(
                    i as int + 1,
                ));
                lemma_apply_one_ok(mcur, bcur, tm);
            }
            let t_t = builder.terms[i].t;
            let t_a = builder.terms[i].a;
            // Resolve the attribute.
            let attr = match find_entry_by_entid(&store.schema, &self.schema_staged, t_a) {
                Some(entry) => entry.attribute,
                None => {
                    self.added.truncate(orig_len);
                    self.next_entid = orig_next;
                    proof {
                        assert(apply_one(mcur, bcur, tm) == Err::<
                            (StoreModel, Seq<Option<int>>),
                            ProfileError,
                        >(ProfileError::UnknownAttribute));
                        assert(self.added@ =~= old(self).added@);
                        assert(self@ =~~= old(self)@);
                    }
                    return Err(ProfileError::UnknownAttribute);
                },
            };
            proof {
                assert(crate::model::attr_of(mcur, tm.a) == Some(attr));
            }
            // Resolve the subject placeholder.
            let e: i64;
            if binds[t_t].is_some() {
                e = binds[t_t].unwrap();
                proof {
                    assert(bcur[tm.t] == Some(e as int));
                }
            } else {
                proof {
                    assert(bcur[tm.t] is None);
                    lemma_none_count_pos(bcur, tm.t);
                }
                let mut upsert: Option<i64> = None;
                if attr.unique.is_some() {
                    match &builder.terms[i].v {
                        TermValue::Value(v) => {
                            upsert = lookup_unique_pair(&store.datoms, &self.added, t_a, v);
                        },
                        TermValue::Placeholder(_) => {},
                    }
                }
                match upsert {
                    Some(e0) => {
                        e = e0;
                        write_slot(&mut binds, t_t, Some(e0));
                        proof {
                            lemma_none_count_update(bcur, tm.t, e0 as int);
                            assert(binds_model(binds@) =~= bcur.update(tm.t, Some(e0 as int)));
                            let vm = tm.v->Val_0;
                            assert(lookup_unique(mcur.datoms, tm.a, vm) == Some(e0 as int));
                            crate::model::lemma_lookup_unique_means(mcur.datoms, tm.a, vm);
                            let dd = DatomModel { e: e0 as int, a: tm.a, v: vm };
                            let k = choose|k: int|
                                0 <= k < mcur.datoms.len() && mcur.datoms[k] == dd;
                            assert(0 <= mcur.datoms[k].e < mcur.next_e);
                        }
                    },
                    None => {
                        e = self.next_entid;
                        self.next_entid = self.next_entid + 1;
                        write_slot(&mut binds, t_t, Some(e));
                        proof {
                            lemma_none_count_update(bcur, tm.t, e as int);
                            assert(binds_model(binds@) =~= bcur.update(tm.t, Some(e as int)));
                            assert(with_tx(store@, self@) =~~= (StoreModel {
                                next_e: mcur.next_e + 1,
                                ..mcur
                            }));
                        }
                    },
                }
            }
            let ghost m1 = with_tx(store@, self@);
            let ghost b1 = binds_model(binds@);
            proof {
                assert(m1.next_e + none_count(b1) <= m0.next_e + builder@.ntemp);
                assert(binds_wf(m1, b1));
            }
            // Resolve the value.
            let vres: TypedValue = match &builder.terms[i].v {
                TermValue::Value(v) => v.duplicate(),
                TermValue::Placeholder(rt) => {
                    proof {
                        assert(tm.v->Temp_0 == rt.index as int);
                    }
                    if binds[rt.index].is_some() {
                        TypedValue::Ref(binds[rt.index].unwrap())
                    } else {
                        proof {
                            assert(b1[rt.index as int] is None);
                            lemma_none_count_pos(b1, rt.index as int);
                        }
                        let ej = self.next_entid;
                        self.next_entid = self.next_entid + 1;
                        write_slot(&mut binds, rt.index, Some(ej));
                        proof {
                            lemma_none_count_update(b1, rt.index as int, ej as int);
                            assert(binds_model(binds@) =~= b1.update(
                                rt.index as int,
                                Some(ej as int),
                            ));
                            assert(with_tx(store@, self@) =~~= (StoreModel {
                                next_e: m1.next_e + 1,
                                ..m1
                            }));
                        }
                        TypedValue::Ref(ej)
                    }
                },
            };
            let ghost m2 = with_tx(store@, self@);
            let ghost b2 = binds_model(binds@);
            let d = Datom { e, a: t_a, v: vres };
            let ref_invalid = match &d.v {
                TypedValue::Ref(x) => *x < 0 || *x >= self.next_entid,
                _ => false,
            };
            if ref_invalid {
                self.added.truncate(orig_len);
                self.next_entid = orig_next;
                proof {
                    assert(apply_one(mcur, bcur, tm) == Err::<
                        (StoreModel, Seq<Option<int>>),
                        ProfileError,
                    >(ProfileError::InvalidRef));
                    assert(self.added@ =~= old(self).added@);
                    assert(self@ =~~= old(self)@);
                }
                return Err(ProfileError::InvalidRef);
            }
            if contains_datom_pair(&store.datoms, &self.added, &d) {
                proof {
                    assert(m2.datoms.contains(d@));
                    assert(apply_one(mcur, bcur, tm) == Ok::<_, ProfileError>((m2, b2)));
                }
            } else {
                proof {
                    assert(!m2.datoms.contains(d@));
                }
                if !attr.multival && has_ea_pair(&store.datoms, &self.added, e, t_a) {
                    self.added.truncate(orig_len);
                    self.next_entid = orig_next;
                    proof {
                        assert(apply_one(mcur, bcur, tm) == Err::<
                            (StoreModel, Seq<Option<int>>),
                            ProfileError,
                        >(ProfileError::CardinalityConflict));
                        assert(self.added@ =~= old(self).added@);
                        assert(self@ =~~= old(self)@);
                    }
                    return Err(ProfileError::CardinalityConflict);
                }
                if attr.unique.is_some() && lookup_unique_pair(
                    &store.datoms,
                    &self.added,
                    t_a,
                    &d.v,
                ).is_some() {
                    self.added.truncate(orig_len);
                    self.next_entid = orig_next;
                    proof {
                        assert(apply_one(mcur, bcur, tm) == Err::<
                            (StoreModel, Seq<Option<int>>),
                            ProfileError,
                        >(ProfileError::UniqueConflict));
                        assert(self.added@ =~= old(self).added@);
                        assert(self@ =~~= old(self)@);
                    }
                    return Err(ProfileError::UniqueConflict);
                }
                let ghost dm = d@;
                self.added.push(d);
                proof {
                    assert(datoms_model(self.added@) =~= datoms_model(
                        self.added@.take(self.added@.len() - 1),
                    ).push(dm));
                    assert(with_tx(store@, self@).datoms =~= m2.datoms.push(dm));
                    assert(with_tx(store@, self@) =~~= (StoreModel {
                        datoms: m2.datoms.push(dm),
                        ..m2
                    }));
                    assert(apply_one(mcur, bcur, tm) == Ok::<_, ProfileError>((
                        with_tx(store@, self@),
                        b2,
                    )));
                }
            }
            proof {
                assert(old(self).added@.is_prefix_of(self.added@)) by {
                    assert(self.added@.take(orig_len as int) =~= old(self).added@);
                }
            }
            i = i + 1;
        }
        proof {
            assert(builder@.terms.skip(i as int) =~= Seq::<TermModel>::empty());
        }
        let report = TxReport { tempids: binds };
        Ok(report)
    }
}

} // verus!
