//! The multi-index store: an append-only record sequence owned together
//! with four lookup indices derived from it. After construction the store
//! is only read; every index is exactly the last-write-wins fold of the
//! record sequence, which is what the snapshot round trip relies on.

use vstd::prelude::*;

use crate::index::{CodeIndex, NameIndex};
use crate::record::{Record, RecordView};

verus! {

/// The mathematical image of a [`GlyphData`] store.
pub struct StoreView {
    pub names: Seq<Seq<char>>,
    pub records: Seq<RecordView>,
    pub by_name: Map<Seq<char>, usize>,
    pub by_production_name: Map<Seq<char>, usize>,
    pub by_alternative_name: Map<Seq<char>, usize>,
    pub by_unicode: Map<char, usize>,
}

/// Every key of `keys` inserted at one position, in order.
pub open spec fn spec_insert_keys(
    m: Map<Seq<char>, usize>,
    keys: Seq<Seq<char>>,
    position: usize,
) -> Map<Seq<char>, usize>
    decreases keys.len(),
{
    if keys.len() == 0 {
        m
    } else {
        spec_insert_keys(m, keys.drop_last(), position).insert(keys.last(), position)
    }
}

/// The store with nothing in it.
pub open spec fn spec_empty_store() -> StoreView {
    StoreView {
        names: Seq::empty(),
        records: Seq::empty(),
        by_name: Map::empty(),
        by_production_name: Map::empty(),
        by_alternative_name: Map::empty(),
        by_unicode: Map::empty(),
    }
}

/// The store after one named record is appended: the record takes the next
/// position, and each key it defines now maps there.
pub open spec fn spec_push_view(v: StoreView, name: Seq<char>, rec: RecordView) -> StoreView {
    let position = v.records.len() as usize;
    StoreView {
        names: v.names.push(name),
        records: v.records.push(rec),
        by_name: v.by_name.insert(name, position),
        by_production_name: match rec.production_name {
            Some(p) => v.by_production_name.insert(p, position),
            None => v.by_production_name,
        },
        by_alternative_name: spec_insert_keys(v.by_alternative_name, rec.alternative_names, position),
        by_unicode: match rec.unicode {
            Some(c) => v.by_unicode.insert(c, position),
            None => v.by_unicode,
        },
    }
}

/// The canonical store of a name and record sequence: all indices are the
/// fold of appending each named record in order.
pub open spec fn spec_store_of(names: Seq<Seq<char>>, records: Seq<RecordView>) -> StoreView
    decreases records.len(),
{
    if records.len() == 0 {
        spec_empty_store()
    } else {
        spec_push_view(
            spec_store_of(names.drop_last(), records.drop_last()),
            names.last(),
            records.last(),
        )
    }
}

/// The views of a record sequence.
pub open spec fn records_view(rs: Seq<Record>) -> Seq<RecordView> {
    Seq::new(rs.len(), |i: int| rs[i]@)
}

/// The record store and its four lookup indices.
#[derive(Debug)]
pub struct GlyphData {
    names: Vec<String>,
    records: Vec<Record>,
    by_name: NameIndex,
    by_production_name: NameIndex,
    by_alternative_name: NameIndex,
    by_unicode: CodeIndex,
}

impl View for GlyphData {
    type V = StoreView;

    closed spec fn view(&self) -> StoreView {
        StoreView {
            names: self.names.deep_view(),
            records: records_view(self.records@),
            by_name: self.by_name@,
            by_production_name: self.by_production_name@,
            by_alternative_name: self.by_alternative_name@,
            by_unicode: self.by_unicode@,
        }
    }
}

/// All positions of a pushed-key map lie below `len`, provided they did
/// before and the new position does.
proof fn lemma_insert_keys_range(
    m: Map<Seq<char>, usize>,
    keys: Seq<Seq<char>>,
    position: usize,
    len: int,
)
    requires
        forall|k: Seq<char>| m.contains_key(k) ==> m[k] < len,
        position < len,
    ensures
        forall|k: Seq<char>|
            #[trigger] spec_insert_keys(m, keys, position).contains_key(k) ==> spec_insert_keys(
                m,
                keys,
                position,
            )[k] < len,
    decreases keys.len(),
{
    if keys.len() > 0 {
        lemma_insert_keys_range(m, keys.drop_last(), position, len);
        assert forall|k: Seq<char>|
            #[trigger] spec_insert_keys(m, keys, position).contains_key(k) implies spec_insert_keys(
            m,
            keys,
            position,
        )[k] < len by {
            if k != keys.last() {
                assert(spec_insert_keys(m, keys.drop_last(), position).contains_key(k));
            }
        }
    }
}

/// Every index of a canonical store points below the record count.
pub proof fn lemma_store_of_ranges(names: Seq<Seq<char>>, records: Seq<RecordView>)
    ensures
        forall|k: Seq<char>|
            #[trigger] spec_store_of(names, records).by_name.contains_key(k) ==> spec_store_of(
                names,
                records,
            ).by_name[k] < records.len(),
        forall|k: Seq<char>|
            #[trigger] spec_store_of(names, records).by_production_name.contains_key(k)
                ==> spec_store_of(names, records).by_production_name[k] < records.len(),
        forall|k: Seq<char>|
            #[trigger] spec_store_of(names, records).by_alternative_name.contains_key(k)
                ==> spec_store_of(names, records).by_alternative_name[k] < records.len(),
        forall|c: char|
            #[trigger] spec_store_of(names, records).by_unicode.contains_key(c) ==> spec_store_of(
                names,
                records,
            ).by_unicode[c] < records.len(),
        spec_store_of(names, records).records == records,
        spec_store_of(names, records).names == names || names.len() != records.len(),
    decreases records.len(),
{
    if records.len() > 0 {
        lemma_store_of_ranges(names.drop_last(), records.drop_last());
        let v = spec_store_of(names.drop_last(), records.drop_last());
        assert(v.records.len() as usize <= usize::MAX);
        assert((v.records.len() as usize) < records.len());
        lemma_insert_keys_range(
            v.by_alternative_name,
            records.last().alternative_names,
            v.records.len() as usize,
            records.len() as int,
        );
        assert(v.records.push(records.last()) =~= records);
        if names.len() == records.len() {
            assert(v.names.push(names.last()) =~= names);
        }
    }
}

impl GlyphData {
    #[verifier::type_invariant]
    spec fn inv(self) -> bool {
        &&& self@.names.len() == self@.records.len()
        &&& self@ == spec_store_of(self@.names, self@.records)
    }

    /// An empty store.
    pub fn new() -> (r: GlyphData)
        ensures
            r@ == spec_empty_store(),
    {
        let names: Vec<String> = Vec::new();
        let records: Vec<Record> = Vec::new();
        proof {
            assert(names.deep_view() =~= Seq::<Seq<char>>::empty());
            assert(records_view(records@) =~= Seq::<RecordView>::empty());
        }
        GlyphData {
            names,
            records,
            by_name: NameIndex::new(),
            by_production_name: NameIndex::new(),
            by_alternative_name: NameIndex::new(),
            by_unicode: CodeIndex::new(),
        }
    }

    /// Appends one named record and indexes every key it defines. Only
    /// ingestion and snapshot loading build stores; after construction the
    /// store is read-only.
    pub(crate) fn push_record(&mut self, name: String, record: Record)
        ensures
            final(self)@ == spec_push_view(old(self)@, name@, record@),
    {
        proof {
            use_type_invariant(&*self);
        }
        let ghost prior = self@;
        let ghost gname = name@;
        let ghost grecord = record@;
        let mut tmp = GlyphData::new();
        core::mem::swap(self, &mut tmp);
        let GlyphData {
            mut names,
            mut records,
            mut by_name,
            mut by_production_name,
            mut by_alternative_name,
            mut by_unicode,
        } = tmp;
        let position = records.len();
        names.push(name.clone());
        by_name.insert(name, position);
        match &record.production_name {
            Some(p) => by_production_name.insert(p.clone(), position),
            None => (),
        }
        let ghost alt_prior = by_alternative_name@;
        let ghost alts = record.alternative_names.deep_view();
        let alt_count = record.alternative_names.len();
        let mut j: usize = 0;
        while j < alt_count
            invariant
                0 <= j <= alt_count,
                alt_count == record.alternative_names@.len(),
                alts == record.alternative_names.deep_view(),
                by_alternative_name@ == spec_insert_keys(alt_prior, alts.take(j as int), position),
            decreases alt_count - j,
        {
            by_alternative_name.insert(record.alternative_names[j].clone(), position);
            proof {
                assert(alts.take(j + 1 as int).drop_last() =~= alts.take(j as int));
                assert(alts.take(j + 1 as int).last() == alts[j as int]);
            }
            j = j + 1;
        }
        proof {
            assert(alts.take(alt_count as int) =~= alts);
        }
        match record.unicode {
            Some(c) => by_unicode.insert(c, position),
            None => (),
        }
        records.push(record);
        proof {
            assert(names.deep_view() =~= prior.names.push(gname));
            assert(records_view(records@) =~= prior.records.push(grecord));
            assert(names.deep_view().drop_last() =~= prior.names);
            assert(records_view(records@).drop_last() =~= prior.records);
            assert(position == prior.records.len() as usize);
            assert(spec_store_of(names.deep_view(), records_view(records@)) == spec_push_view(
                prior,
                gname,
                grecord,
            ));
        }
        let assembled = GlyphData {
            names,
            records,
            by_name,
            by_production_name,
            by_alternative_name,
            by_unicode,
        };
        proof {
            assert(assembled@ == spec_push_view(prior, gname, grecord));
        }
        *self = assembled;
    }

    /// The full ordered record sequence, for bulk export. The whole store
    /// is canonical in it: every index is the last-write-wins fold of the
    /// names and records, so rebuilding from the exported sequence yields
    /// an observationally identical store.
    pub fn records(&self) -> (r: &Vec<Record>)
        ensures
            records_view(r@) == self@.records,
            self@.names.len() == self@.records.len(),
            self@ == spec_store_of(self@.names, self@.records),
    {
        proof {
            use_type_invariant(self);
        }
        &self.records
    }

    /// The primary names, position by position.
    pub(crate) fn names(&self) -> (r: &Vec<String>)
        ensures
            r.deep_view() == self@.names,
    {
        &self.names
    }

    /// The position a name was last indexed at.
    pub(crate) fn name_position(&self, name: &str) -> (r: Option<usize>)
        ensures
            r == (if self@.by_name.contains_key(name@) {
                Some(self@.by_name[name@])
            } else {
                None::<usize>
            }),
    {
        self.by_name.get(name)
    }

    /// The record a name maps to, if any does.
    pub fn record_for_name(&self, name: &str) -> (r: Option<&Record>)
        ensures
            self@.by_name.contains_key(name@) ==> (r matches Some(rec) && self@.by_name[name@]
                < self@.records.len() && rec@ == self@.records[self@.by_name[name@] as int]),
            !self@.by_name.contains_key(name@) ==> r is None,
    {
        proof {
            use_type_invariant(self);
            lemma_store_of_ranges(self@.names, self@.records);
        }
        match self.by_name.get(name) {
            Some(i) => {
                proof {
                    assert(spec_store_of(self@.names, self@.records).by_name.contains_key(
                        name@,
                    ));
                }
                Some(&self.records[i])
            },
            None => None,
        }
    }

    /// The record a production name maps to, if any does.
    pub fn record_for_production_name(&self, name: &str) -> (r: Option<&Record>)
        ensures
            self@.by_production_name.contains_key(name@) ==> (r matches Some(rec)
                && self@.by_production_name[name@] < self@.records.len() && rec@
                == self@.records[self@.by_production_name[name@] as int]),
            !self@.by_production_name.contains_key(name@) ==> r is None,
    {
        proof {
            use_type_invariant(self);
            lemma_store_of_ranges(self@.names, self@.records);
        }
        match self.by_production_name.get(name) {
            Some(i) => {
                proof {
                    assert(spec_store_of(self@.names, self@.records).by_production_name.contains_key(
                        name@,
                    ));
                }
                Some(&self.records[i])
            },
            None => None,
        }
    }

    /// The record an alternative name maps to, if any does.
    pub fn record_for_alternative_name(&self, name: &str) -> (r: Option<&Record>)
        ensures
            self@.by_alternative_name.contains_key(name@) ==> (r matches Some(rec)
                && self@.by_alternative_name[name@] < self@.records.len() && rec@
                == self@.records[self@.by_alternative_name[name@] as int]),
            !self@.by_alternative_name.contains_key(name@) ==> r is None,
    {
        proof {
            use_type_invariant(self);
            lemma_store_of_ranges(self@.names, self@.records);
        }
        match self.by_alternative_name.get(name) {
            Some(i) => {
                proof {
                    assert(spec_store_of(self@.names, self@.records).by_alternative_name.contains_key(
                        name@,
                    ));
                }
                Some(&self.records[i])
            },
            None => None,
        }
    }

    /// The record a codepoint maps to, if any does.
    pub fn record_for_unicode(&self, unicode_value: char) -> (r: Option<&Record>)
        ensures
            self@.by_unicode.contains_key(unicode_value) ==> (r matches Some(rec)
                && self@.by_unicode[unicode_value] < self@.records.len() && rec@
                == self@.records[self@.by_unicode[unicode_value] as int]),
            !self@.by_unicode.contains_key(unicode_value) ==> r is None,
    {
        proof {
            use_type_invariant(self);
            lemma_store_of_ranges(self@.names, self@.records);
        }
        match self.by_unicode.get(unicode_value) {
            Some(i) => {
                proof {
                    assert(spec_store_of(self@.names, self@.records).by_unicode.contains_key(
                        unicode_value,
                    ));
                }
                Some(&self.records[i])
            },
            None => None,
        }
    }

}

// ---------------------------------------------------------------------------
// Index laws: in a canonical store every index is sound, and on a clash
// the last ingested record wins.
// ---------------------------------------------------------------------------

proof fn lemma_insert_keys_lookup(
    m: Map<Seq<char>, usize>,
    keys: Seq<Seq<char>>,
    position: usize,
    k: Seq<char>,
)
    ensures
        spec_insert_keys(m, keys, position).contains_key(k) <==> (m.contains_key(k)
            || keys.contains(k)),
        spec_insert_keys(m, keys, position).contains_key(k) ==> spec_insert_keys(
            m,
            keys,
            position,
        )[k] == (if keys.contains(k) {
            position
        } else {
            m[k]
        }),
    decreases keys.len(),
{
    if keys.len() > 0 {
        lemma_insert_keys_lookup(m, keys.drop_last(), position, k);
        if keys.contains(k) {
            let w = choose|w: int| 0 <= w < keys.len() && keys[w] == k;
            if w < keys.len() - 1 {
                assert(keys.drop_last()[w] == k);
                assert(keys.drop_last().contains(k));
            }
        }
        if keys.drop_last().contains(k) {
            let w = choose|w: int| 0 <= w < keys.len() - 1 && keys.drop_last()[w] == k;
            assert(keys[w] == k);
            assert(keys.contains(k));
        }
        if keys.last() == k {
            assert(keys.contains(k));
        }
    }
}

/// The primary-name law: a name is found exactly when some record was
/// ingested under it, and it resolves to the position of the last one.
pub proof fn lemma_name_index_last_wins(
    names: Seq<Seq<char>>,
    records: Seq<RecordView>,
    n: Seq<char>,
)
    requires
        names.len() == records.len(),
        names.len() <= usize::MAX,
    ensures
        spec_store_of(names, records).by_name.contains_key(n) <==> (exists|i: int|
            0 <= i < names.len() && names[i] == n),
        spec_store_of(names, records).by_name.contains_key(n) ==> {
            let p = spec_store_of(names, records).by_name[n] as int;
            &&& 0 <= p < names.len()
            &&& names[p] == n
            &&& forall|j: int| p < j < names.len() ==> names[j] != n
        },
    decreases records.len(),
{
    if records.len() > 0 {
        lemma_name_index_last_wins(names.drop_last(), records.drop_last(), n);
        lemma_store_of_ranges(names.drop_last(), records.drop_last());
        let v = spec_store_of(names.drop_last(), records.drop_last());
        if names.last() == n {
            assert(names[names.len() - 1] == n);
        } else {
            if v.by_name.contains_key(n) {
                let p = v.by_name[n] as int;
                assert(names.drop_last()[p] == n);
                assert(names[p] == n);
                assert forall|j: int| p < j < names.len() implies names[j] != n by {
                    if j < names.len() - 1 {
                        assert(names.drop_last()[j] == names[j]);
                    }
                }
            }
            if exists|i: int| 0 <= i < names.len() && names[i] == n {
                let w = choose|i: int| 0 <= i < names.len() && names[i] == n;
                assert(names.drop_last()[w] == n);
            }
        }
    }
}

/// The production-name law: a production name resolves to the position of
/// the last ingested record that defines it.
pub proof fn lemma_production_index_last_wins(
    names: Seq<Seq<char>>,
    records: Seq<RecordView>,
    p: Seq<char>,
)
    requires
        names.len() == records.len(),
        names.len() <= usize::MAX,
    ensures
        spec_store_of(names, records).by_production_name.contains_key(p) <==> (exists|i: int|
            0 <= i < records.len() && records[i].production_name == Some(p)),
        spec_store_of(names, records).by_production_name.contains_key(p) ==> {
            let q = spec_store_of(names, records).by_production_name[p] as int;
            &&& 0 <= q < records.len()
            &&& records[q].production_name == Some(p)
            &&& forall|j: int| q < j < records.len() ==> records[j].production_name != Some(p)
        },
    decreases records.len(),
{
    if records.len() > 0 {
        lemma_production_index_last_wins(names.drop_last(), records.drop_last(), p);
        lemma_store_of_ranges(names.drop_last(), records.drop_last());
        let v = spec_store_of(names.drop_last(), records.drop_last());
        if records.last().production_name == Some(p) {
            assert(records[records.len() - 1].production_name == Some(p));
        } else {
            if v.by_production_name.contains_key(p) {
                let q = v.by_production_name[p] as int;
                assert(records.drop_last()[q].production_name == Some(p));
                assert(records[q].production_name == Some(p));
                assert forall|j: int| q < j < records.len() implies records[j].production_name
                    != Some(p) by {
                    if j < records.len() - 1 {
                        assert(records.drop_last()[j] == records[j]);
                    }
                }
            }
            if exists|i: int| 0 <= i < records.len() && records[i].production_name == Some(p) {
                let w = choose|i: int|
                    0 <= i < records.len() && records[i].production_name == Some(p);
                assert(records.drop_last()[w].production_name == Some(p));
            }
        }
    }
}

/// The codepoint law: a codepoint is found exactly when some ingested
/// record carries it, and it resolves to the position of the last one. In
/// particular a record whose source named no usable codepoint adds
/// nothing here, though the record itself is served.
pub proof fn lemma_unicode_index_last_wins(
    names: Seq<Seq<char>>,
    records: Seq<RecordView>,
    c: char,
)
    requires
        names.len() == records.len(),
        names.len() <= usize::MAX,
    ensures
        spec_store_of(names, records).by_unicode.contains_key(c) <==> (exists|i: int|
            0 <= i < records.len() && records[i].unicode == Some(c)),
        spec_store_of(names, records).by_unicode.contains_key(c) ==> {
            let q = spec_store_of(names, records).by_unicode[c] as int;
            &&& 0 <= q < records.len()
            &&& records[q].unicode == Some(c)
            &&& forall|j: int| q < j < records.len() ==> records[j].unicode != Some(c)
        },
    decreases records.len(),
{
    if records.len() > 0 {
        lemma_unicode_index_last_wins(names.drop_last(), records.drop_last(), c);
        lemma_store_of_ranges(names.drop_last(), records.drop_last());
        let v = spec_store_of(names.drop_last(), records.drop_last());
        if records.last().unicode == Some(c) {
            assert(records[records.len() - 1].unicode == Some(c));
        } else {
            if v.by_unicode.contains_key(c) {
                let q = v.by_unicode[c] as int;
                assert(records.drop_last()[q].unicode == Some(c));
                assert(records[q].unicode == Some(c));
                assert forall|j: int| q < j < records.len() implies records[j].unicode != Some(
                    c,
                ) by {
                    if j < records.len() - 1 {
                        assert(records.drop_last()[j] == records[j]);
                    }
                }
            }
            if exists|i: int| 0 <= i < records.len() && records[i].unicode == Some(c) {
                let w = choose|i: int| 0 <= i < records.len() && records[i].unicode == Some(c);
                assert(records.drop_last()[w].unicode == Some(c));
            }
        }
    }
}

/// The alternative-name law: an alternative name is found exactly when
/// some ingested record lists it, and it resolves to the position of the
/// last one that does.
pub proof fn lemma_alternative_index_last_wins(
    names: Seq<Seq<char>>,
    records: Seq<RecordView>,
    a: Seq<char>,
)
    requires
        names.len() == records.len(),
        names.len() <= usize::MAX,
    ensures
        spec_store_of(names, records).by_alternative_name.contains_key(a) <==> (exists|i: int|
            0 <= i < records.len() && records[i].alternative_names.contains(a)),
        spec_store_of(names, records).by_alternative_name.contains_key(a) ==> {
            let q = spec_store_of(names, records).by_alternative_name[a] as int;
            &&& 0 <= q < records.len()
            &&& records[q].alternative_names.contains(a)
            &&& forall|j: int|
                q < j < records.len() ==> !records[j].alternative_names.contains(a)
        },
    decreases records.len(),
{
    if records.len() > 0 {
        lemma_alternative_index_last_wins(names.drop_last(), records.drop_last(), a);
        lemma_store_of_ranges(names.drop_last(), records.drop_last());
        let v = spec_store_of(names.drop_last(), records.drop_last());
        lemma_insert_keys_lookup(
            v.by_alternative_name,
            records.last().alternative_names,
            v.records.len() as usize,
            a,
        );
        if records.last().alternative_names.contains(a) {
            assert(records[records.len() - 1].alternative_names.contains(a));
        } else {
            if v.by_alternative_name.contains_key(a) {
                let q = v.by_alternative_name[a] as int;
                assert(records.drop_last()[q].alternative_names.contains(a));
                assert(records[q].alternative_names.contains(a));
                assert forall|j: int| q < j < records.len() implies !records[j].alternative_names.contains(
                    a,
                ) by {
                    if j < records.len() - 1 {
                        assert(records.drop_last()[j] == records[j]);
                    }
                }
            }
            if exists|i: int| 0 <= i < records.len() && records[i].alternative_names.contains(a) {
                let w = choose|i: int|
                    0 <= i < records.len() && records[i].alternative_names.contains(a);
                assert(records.drop_last()[w].alternative_names.contains(a));
            }
        }
    }
}

} // verus!
