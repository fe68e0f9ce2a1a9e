use crate::scalar::{lemma_scalar_order, scalar_lt, value_cmp, Scalar, ScalarV};
use std::cmp::Ordering;
use vstd::prelude::*;

verus! {

/// One `(value, document id)` pair of a field's index.
#[derive(Clone, Debug, PartialEq, Eq)]
pub struct Entry {
    pub value: Scalar,
    pub id: String,
}

/// A top-level field of a record: its key and its value.
#[derive(Clone, Debug, PartialEq, Eq)]
pub struct Field<V> {
    pub key: String,
    pub value: V,
}

/// A record's top-level fields as the index sees them: each value is its
/// scalar, or `None` for null, arrays and objects.
pub type Record = Vec<Field<Option<Scalar>>>;

/// A stored document of a collection: its id and its top-level fields.
#[derive(Clone, Debug, PartialEq, Eq)]
pub struct IdRecord {
    pub id: String,
    pub fields: Record,
}

/// The sorted entries of one field of one collection.
#[derive(Clone, Debug, PartialEq, Eq)]
pub struct FieldIndex {
    pub collection: String,
    pub key: String,
    pub entries: Vec<Entry>,
}

/// The store-wide index: for each collection path and field name, the
/// field's entries in ascending order of value.
#[derive(Clone, Debug, PartialEq, Eq)]
pub struct StoreIndex {
    pub fields: Vec<FieldIndex>,
}

pub open spec fn opt_view(o: Option<Scalar>) -> Option<ScalarV> {
    match o {
        Some(s) => Some(s@),
        None => None,
    }
}

/// Entries are in ascending order of value.
pub open spec fn is_sorted(es: Seq<Entry>) -> bool {
    forall|i: int, j: int| 0 <= i < j < es.len() ==> !scalar_lt(#[trigger] es[j].value@, #[trigger] es[i].value@)
}

/// No two entries name the same document.
pub open spec fn ids_unique(es: Seq<Entry>) -> bool {
    forall|i: int, j: int| 0 <= i < es.len() && 0 <= j < es.len() && i != j ==> #[trigger] es[i].id@ != #[trigger] es[j].id@
}

/// No two documents share an id.
pub open spec fn doc_ids_unique(docs: Seq<IdRecord>) -> bool {
    forall|i: int, j: int| 0 <= i < docs.len() && 0 <= j < docs.len() && i != j ==> #[trigger] docs[i].id@ != #[trigger] docs[j].id@
}

/// The value of the first field named `key`.
pub open spec fn value_of<V>(fields: Seq<Field<V>>, key: Seq<char>) -> Option<V>
    decreases fields.len(),
{
    if fields.len() == 0 {
        None
    } else if fields[0].key@ == key {
        Some(fields[0].value)
    } else {
        value_of(fields.drop_first(), key)
    }
}

/// The scalar value of the first field named `key`, if that field is a scalar.
pub open spec fn field_value(fields: Seq<Field<Option<Scalar>>>, key: Seq<char>) -> Option<ScalarV> {
    match value_of(fields, key) {
        Some(o) => opt_view(o),
        None => None,
    }
}

/// Document `id` of `docs` has the scalar `v` under `key`.
pub open spec fn doc_has(docs: Seq<IdRecord>, id: Seq<char>, key: Seq<char>, v: ScalarV) -> bool {
    exists|j: int| 0 <= j < docs.len() && #[trigger] docs[j].id@ == id && field_value(docs[j].fields@, key) == Some(v)
}

spec fn doc_has_before(docs: Seq<IdRecord>, n: int, id: Seq<char>, key: Seq<char>, v: ScalarV) -> bool {
    exists|d: int| 0 <= d < n && #[trigger] docs[d].id@ == id && field_value(docs[d].fields@, key) == Some(v)
}

/// `es` holds `(v, id)` exactly.
pub open spec fn has_entry(es: Seq<Entry>, id: Seq<char>, v: ScalarV) -> bool {
    exists|t: int| 0 <= t < es.len() && #[trigger] es[t].id@ == id && es[t].value@ == v
}

/// `es` is the index of `key` over `docs`: sorted, one entry per document that
/// has a scalar under `key`, and nothing else.
pub open spec fn indexes_field(es: Seq<Entry>, docs: Seq<IdRecord>, key: Seq<char>) -> bool {
    &&& is_sorted(es)
    &&& ids_unique(es)
    &&& forall|id: Seq<char>, v: ScalarV| has_entry(es, id, v) <==> doc_has(docs, id, key, v)
}

/// The entries stored for `(collection, key)`: those of the first match.
pub open spec fn lookup(fs: Seq<FieldIndex>, collection: Seq<char>, key: Seq<char>) -> Option<Seq<Entry>>
    decreases fs.len(),
{
    if fs.len() == 0 {
        None
    } else if fs[0].collection@ == collection && fs[0].key@ == key {
        Some(fs[0].entries@)
    } else {
        lookup(fs.drop_first(), collection, key)
    }
}

/// `x` counts as below `val`: smaller, or equal when `inclusive`.
pub open spec fn below(x: ScalarV, val: ScalarV, inclusive: bool) -> bool {
    scalar_lt(x, val) || (inclusive && x == val)
}

/// The number of leading entries of sorted `es` that are below `val`; every
/// entry from there on is not.
pub fn count_below(es: &Vec<Entry>, val: &Scalar, inclusive: bool) -> (r: usize)
    requires
        is_sorted(es@),
    ensures
        r <= es.len(),
        forall|i: int| 0 <= i < r ==> below(#[trigger] es@[i].value@, val@, inclusive),
        forall|i: int| r <= i < es.len() ==> !below(#[trigger] es@[i].value@, val@, inclusive),
{
    let mut lo: usize = 0;
    let mut hi: usize = es.len();
    while lo < hi
        invariant
            lo <= hi <= es.len(),
            is_sorted(es@),
            forall|i: int| 0 <= i < lo ==> below(#[trigger] es@[i].value@, val@, inclusive),
            forall|i: int| hi <= i < es.len() ==> !below(#[trigger] es@[i].value@, val@, inclusive),
        decreases hi - lo,
    {
        let mid = lo + (hi - lo) / 2;
        let o = value_cmp(&es[mid].value, val);
        let is_below = match o {
            Ordering::Less => true,
            Ordering::Equal => inclusive,
            Ordering::Greater => false,
        };
        proof {
            assert forall|i: int| 0 <= i < es.len() implies {
                &&& (i < mid && is_below ==> below(es@[i].value@, val@, inclusive))
                &&& (i > mid && !is_below ==> !below(es@[i].value@, val@, inclusive))
            } by {
                lemma_scalar_order(es@[i].value@, es@[mid as int].value@, val@);
                lemma_scalar_order(es@[mid as int].value@, es@[i].value@, val@);
                lemma_scalar_order(es@[i].value@, val@, es@[mid as int].value@);
                lemma_scalar_order(val@, es@[mid as int].value@, es@[i].value@);
            }
        }
        if is_below {
            lo = mid + 1;
        } else {
            hi = mid;
        }
    }
    lo
}

/// Inserts `e` after every entry not greater than it; returns where it went.
fn insert_sorted(es: &mut Vec<Entry>, e: Entry) -> (p: usize)
    requires
        is_sorted(old(es)@),
    ensures
        p <= old(es)@.len(),
        final(es)@ == old(es)@.insert(p as int, e),
        is_sorted(final(es)@),
{
    let p = count_below(es, &e.value, true);
    proof {
        let s = es@.insert(p as int, e);
        assert forall|i: int, j: int| 0 <= i < j < s.len() implies !scalar_lt(#[trigger] s[j].value@, #[trigger] s[i].value@) by {
            if i < p && j == p {
                lemma_scalar_order(s[i].value@, e.value@, e.value@);
            } else if i == p && j > p {
                assert(s[j] == es@[j - 1]);
                lemma_scalar_order(e.value@, s[j].value@, e.value@);
            } else if i < p && j > p {
                assert(s[j] == es@[j - 1]);
                assert(s[i] == es@[i]);
            } else if j < p {
                assert(s[j] == es@[j]);
                assert(s[i] == es@[i]);
            } else {
                assert(s[j] == es@[j - 1]);
                assert(s[i] == es@[i - 1]);
            }
        }
    }
    es.insert(p, e);
    p
}

/// The scalar value of the first field of `fields` named `key`.
pub fn record_value(fields: &Record, key: &String) -> (r: Option<Scalar>)
    ensures
        opt_view(r) == field_value(fields@, key@),
{
    let mut i: usize = 0;
    proof {
        assert(fields@.skip(0) =~= fields@);
    }
    while i < fields.len()
        invariant
            i <= fields.len(),
            value_of(fields@, key@) == value_of(fields@.skip(i as int), key@),
        decreases fields.len() - i,
    {
        proof {
            assert(fields@.skip(i as int).drop_first() =~= fields@.skip(i + 1));
            assert(fields@.skip(i as int)[0] == fields@[i as int]);
        }
        if fields[i].key == *key {
            return match &fields[i].value {
                Some(v) => Some(v.copy()),
                None => None,
            };
        }
        i = i + 1;
    }
    None
}

/// The entries of `key` over `docs`: one `(value, id)` pair for each document
/// whose field `key` holds a scalar, in ascending order of value.
pub fn build_entries(key: &String, docs: &Vec<IdRecord>) -> (r: Vec<Entry>)
    requires
        doc_ids_unique(docs@),
    ensures
        indexes_field(r@, docs@, key@),
{
    let mut es: Vec<Entry> = Vec::new();
    let mut j: usize = 0;
    while j < docs.len()
        invariant
            j <= docs.len(),
            doc_ids_unique(docs@),
            is_sorted(es@),
            ids_unique(es@),
            forall|t: int| 0 <= t < es.len() ==> doc_has_before(docs@, j as int, #[trigger] es@[t].id@, key@, es@[t].value@),
            forall|d: int, v: ScalarV| 0 <= d < j && field_value(docs@[d].fields@, key@) == Some(v)
                ==> #[trigger] has_entry(es@, docs@[d].id@, v),
        decreases docs.len() - j,
    {
        let found = record_value(&docs[j].fields, key);
        match found {
            Some(v) => {
                let ghost old_es = es@;
                let e = Entry { value: v, id: docs[j].id.clone() };
                let p = insert_sorted(&mut es, e);
                proof {
                    assert forall|t: int| 0 <= t < es.len() && t != p implies #[trigger] es@[t] == old_es[if t < p { t } else { t - 1 }] by {}
                    assert forall|t: int| 0 <= t < old_es.len() implies #[trigger] old_es[t].id@ != docs@[j as int].id@ by {
                        let d = choose|d: int| 0 <= d < j && #[trigger] docs@[d].id@ == old_es[t].id@
                            && field_value(docs@[d].fields@, key@) == Some(old_es[t].value@);
                        assert(docs@[d].id@ != docs@[j as int].id@);
                    }
                    assert forall|t: int| 0 <= t < es.len() implies doc_has_before(docs@, j + 1, #[trigger] es@[t].id@, key@, es@[t].value@) by {
                        if t == p {
                            assert(docs@[j as int].id@ == es@[t].id@);
                        } else {
                            let t0 = if t < p { t } else { t - 1 };
                            assert(es@[t] == old_es[t0]);
                            let d = choose|d: int| 0 <= d < j && #[trigger] docs@[d].id@ == old_es[t0].id@
                                && field_value(docs@[d].fields@, key@) == Some(old_es[t0].value@);
                            assert(docs@[d].id@ == es@[t].id@);
                        }
                    }
                    assert forall|d: int, w: ScalarV| 0 <= d < j + 1 && field_value(docs@[d].fields@, key@) == Some(w)
                        implies #[trigger] has_entry(es@, docs@[d].id@, w) by {
                        if d == j {
                            assert(es@[p as int].id@ == docs@[d].id@);
                        } else {
                            assert(has_entry(old_es, docs@[d].id@, w));
                            let t = choose|t: int| 0 <= t < old_es.len() && #[trigger] old_es[t].id@ == docs@[d].id@ && old_es[t].value@ == w;
                            let t1 = if t < p { t } else { t + 1 };
                            assert(es@[t1] == old_es[t]);
                        }
                    }
                    assert forall|a: int, b: int| 0 <= a < es.len() && 0 <= b < es.len() && a != b implies #[trigger] es@[a].id@ != #[trigger] es@[b].id@ by {
                        if a != p && b != p {
                            let a0 = if a < p { a } else { a - 1 };
                            let b0 = if b < p { b } else { b - 1 };
                            assert(es@[a] == old_es[a0]);
                            assert(es@[b] == old_es[b0]);
                        } else if a == p {
                            let b0 = if b < p { b } else { b - 1 };
                            assert(es@[b] == old_es[b0]);
                        } else {
                            let a0 = if a < p { a } else { a - 1 };
                            assert(es@[a] == old_es[a0]);
                        }
                    }
                }
            },
            None => {
                proof {
                    assert forall|t: int| 0 <= t < es.len() implies doc_has_before(docs@, j + 1, #[trigger] es@[t].id@, key@, es@[t].value@) by {
                        let d = choose|d: int| 0 <= d < j && #[trigger] docs@[d].id@ == es@[t].id@
                            && field_value(docs@[d].fields@, key@) == Some(es@[t].value@);
                    }
                }
            },
        }
        j = j + 1;
    }
    proof {
        assert forall|id: Seq<char>, v: ScalarV| has_entry(es@, id, v) <==> doc_has(docs@, id, key@, v) by {
            if has_entry(es@, id, v) {
                let t = choose|t: int| 0 <= t < es@.len() && #[trigger] es@[t].id@ == id && es@[t].value@ == v;
                let d = choose|d: int| 0 <= d < j && #[trigger] docs@[d].id@ == es@[t].id@
                    && field_value(docs@[d].fields@, key@) == Some(es@[t].value@);
                assert(docs@[d].id@ == id);
            }
            if doc_has(docs@, id, key@, v) {
                let d = choose|d: int| 0 <= d < docs.len() && #[trigger] docs@[d].id@ == id && field_value(docs@[d].fields@, key@) == Some(v);
                assert(field_value(docs@[d].fields@, key@) == Some(v));
            }
        }
    }
    es
}


/// `k` is the key of one of `keys`.
pub open spec fn key_in(keys: Seq<String>, k: Seq<char>) -> bool {
    exists|i: int| 0 <= i < keys.len() && #[trigger] keys[i]@ == k
}

/// `after` is `before` with the fields `keys` of `collection` rebuilt over
/// `docs`, and every other field as it was.
pub open spec fn refreshed(
    before: Seq<FieldIndex>,
    after: Seq<FieldIndex>,
    collection: Seq<char>,
    keys: Seq<String>,
    docs: Seq<IdRecord>,
) -> bool {
    &&& forall|k: Seq<char>| #[trigger] key_in(keys, k) ==> {
        &&& lookup(after, collection, k) is Some
        &&& indexes_field(lookup(after, collection, k)->0, docs, k)
    }
    &&& forall|c: Seq<char>, k: Seq<char>| !(c == collection && key_in(keys, k)) ==> #[trigger] lookup(after, c, k) == lookup(before, c, k)
}

proof fn lemma_lookup_update(fs: Seq<FieldIndex>, i: int, f: FieldIndex, c: Seq<char>, k: Seq<char>)
    requires
        0 <= i < fs.len(),
        f.collection@ == fs[i].collection@,
        f.key@ == fs[i].key@,
        forall|j: int| 0 <= j < i ==> !(#[trigger] fs[j].collection@ == f.collection@ && fs[j].key@ == f.key@),
    ensures
        lookup(fs.update(i, f), c, k) == if c == f.collection@ && k == f.key@ {
            Some(f.entries@)
        } else {
            lookup(fs, c, k)
        },
    decreases i,
{
    if i > 0 {
        assert(fs.update(i, f).drop_first() =~= fs.drop_first().update(i - 1, f));
        assert forall|j: int| 0 <= j < i - 1 implies !(#[trigger] fs.drop_first()[j].collection@ == f.collection@
            && fs.drop_first()[j].key@ == f.key@) by {
            assert(fs.drop_first()[j] == fs[j + 1]);
        }
        assert(fs.update(i, f)[0] == fs[0]);
        assert(!(fs[0].collection@ == f.collection@ && fs[0].key@ == f.key@));
        lemma_lookup_update(fs.drop_first(), i - 1, f, c, k);
    } else {
        assert(fs.update(i, f).drop_first() =~= fs.drop_first());
    }
}

proof fn lemma_lookup_push(fs: Seq<FieldIndex>, f: FieldIndex, c: Seq<char>, k: Seq<char>)
    ensures
        lookup(fs.push(f), c, k) == if lookup(fs, c, k) is Some {
            lookup(fs, c, k)
        } else if c == f.collection@ && k == f.key@ {
            Some(f.entries@)
        } else {
            None
        },
    decreases fs.len(),
{
    if fs.len() > 0 {
        assert(fs.push(f).drop_first() =~= fs.drop_first().push(f));
        lemma_lookup_push(fs.drop_first(), f, c, k);
    } else {
        assert(fs.push(f).drop_first() =~= fs);
    }
}

/// Every field stored in a well-formed index is sorted, with distinct ids.
pub proof fn lemma_lookup_sorted(fs: Seq<FieldIndex>, c: Seq<char>, k: Seq<char>)
    requires
        forall|i: int| 0 <= i < fs.len() ==> field_ok(#[trigger] fs[i].entries@),
    ensures
        lookup(fs, c, k) is Some ==> field_ok(lookup(fs, c, k)->0),
    decreases fs.len(),
{
    if fs.len() > 0 {
        assert(field_ok(fs[0].entries@));
        assert forall|i: int| 0 <= i < fs.len() - 1 implies field_ok(#[trigger] fs.drop_first()[i].entries@) by {
            assert(fs.drop_first()[i] == fs[i + 1]);
        }
        lemma_lookup_sorted(fs.drop_first(), c, k);
    }
}

/// A field's entries as the queries need them: sorted, with distinct ids.
pub open spec fn field_ok(es: Seq<Entry>) -> bool {
    is_sorted(es) && ids_unique(es)
}

/// Whether no two of the entries `es` name the same document.
fn entries_ids_unique(es: &Vec<Entry>) -> (r: bool)
    ensures
        r == ids_unique(es@),
{
    let mut i: usize = 0;
    while i < es.len()
        invariant
            i <= es.len(),
            forall|a: int, b: int| 0 <= a < i && 0 <= b < es.len() && a != b ==> #[trigger] es@[a].id@ != #[trigger] es@[b].id@,
        decreases es.len() - i,
    {
        let mut j: usize = 0;
        while j < es.len()
            invariant
                i < es.len(),
                j <= es.len(),
                forall|a: int, b: int| 0 <= a < i && 0 <= b < es.len() && a != b ==> #[trigger] es@[a].id@ != #[trigger] es@[b].id@,
                forall|b: int| 0 <= b < j && b != i ==> es@[i as int].id@ != #[trigger] es@[b].id@,
            decreases es.len() - j,
        {
            if j != i && es[i].id == es[j].id {
                return false;
            }
            j = j + 1;
        }
        i = i + 1;
    }
    true
}

/// Whether the entries `es` are in ascending order, checked pair by pair.
fn entries_sorted(es: &Vec<Entry>) -> (r: bool)
    ensures
        r == is_sorted(es@),
{
    let mut i: usize = 1;
    if es.len() == 0 {
        return true;
    }
    while i < es.len()
        invariant
            1 <= i <= es.len(),
            is_sorted(es@.take(i as int)),
        decreases es.len() - i,
    {
        let o = value_cmp(&es[i].value, &es[i - 1].value);
        if matches!(o, Ordering::Less) {
            proof {
                assert(!is_sorted(es@)) by {
                    assert(scalar_lt(es@[i as int].value@, es@[i - 1].value@));
                }
            }
            return false;
        }
        proof {
            let t = es@.take(i + 1);
            assert forall|a: int, b: int| 0 <= a < b < t.len() implies !scalar_lt(#[trigger] t[b].value@, #[trigger] t[a].value@) by {
                if b < i {
                    assert(t[a] == es@.take(i as int)[a]);
                    assert(t[b] == es@.take(i as int)[b]);
                } else if a < i - 1 {
                    assert(t[a] == es@.take(i as int)[a]);
                    assert(es@[i - 1] == es@.take(i as int)[i - 1]);
                    assert(!scalar_lt(es@[i - 1].value@, t[a].value@));
                    lemma_scalar_order(t[b].value@, es@[i - 1].value@, t[a].value@);
                    lemma_scalar_order(t[a].value@, es@[i - 1].value@, t[b].value@);
                    lemma_scalar_order(es@[i - 1].value@, t[b].value@, t[a].value@);
                }
            }
        }
        i = i + 1;
    }
    proof {
        assert(es@.take(i as int) =~= es@);
    }
    true
}

impl StoreIndex {
    /// Every field's entries are sorted and name distinct documents.
    pub open spec fn wf(&self) -> bool {
        forall|i: int| 0 <= i < self.fields.len() ==> field_ok(#[trigger] self.fields@[i].entries@)
    }

    /// An index with no entries.
    pub fn new() -> (r: StoreIndex)
        ensures
            r.wf(),
            forall|c: Seq<char>, k: Seq<char>| #[trigger] lookup(r.fields@, c, k) == None::<Seq<Entry>>,
    {
        StoreIndex { fields: Vec::new() }
    }

    /// Whether every field's entries are sorted with distinct ids, as the queries need: an
    /// index read back from storage is checked with this before use.
    pub fn is_well_formed(&self) -> (r: bool)
        ensures
            r == self.wf(),
    {
        let mut i: usize = 0;
        while i < self.fields.len()
            invariant
                i <= self.fields.len(),
                forall|j: int| 0 <= j < i ==> field_ok(#[trigger] self.fields@[j].entries@),
            decreases self.fields.len() - i,
        {
            if !entries_sorted(&self.fields[i].entries) || !entries_ids_unique(&self.fields[i].entries) {
                return false;
            }
            i = i + 1;
        }
        true
    }

    /// Where the entries of `key` in `collection` are kept.
    fn find(&self, collection: &String, key: &String) -> (r: Option<usize>)
        ensures
            match r {
                Some(i) => {
                    &&& i < self.fields.len()
                    &&& self.fields@[i as int].collection@ == collection@
                    &&& self.fields@[i as int].key@ == key@
                    &&& forall|j: int| 0 <= j < i ==> !(#[trigger] self.fields@[j].collection@ == collection@
                        && self.fields@[j].key@ == key@)
                    &&& lookup(self.fields@, collection@, key@) == Some(self.fields@[i as int].entries@)
                },
                None => lookup(self.fields@, collection@, key@) == None::<Seq<Entry>>,
            },
    {
        let mut i: usize = 0;
        proof {
            assert(self.fields@.skip(0) =~= self.fields@);
        }
        while i < self.fields.len()
            invariant
                i <= self.fields.len(),
                lookup(self.fields@, collection@, key@) == lookup(self.fields@.skip(i as int), collection@, key@),
                forall|j: int| 0 <= j < i ==> !(#[trigger] self.fields@[j].collection@ == collection@
                    && self.fields@[j].key@ == key@),
            decreases self.fields.len() - i,
        {
            proof {
                assert(self.fields@.skip(i as int).drop_first() =~= self.fields@.skip(i + 1));
                assert(self.fields@.skip(i as int)[0] == self.fields@[i as int]);
            }
            if self.fields[i].collection == *collection && self.fields[i].key == *key {
                return Some(i);
            }
            i = i + 1;
        }
        None
    }

    /// The entries of `key` in `collection`, if that field was ever indexed.
    pub fn entries(&self, collection: &String, key: &String) -> (r: Option<&Vec<Entry>>)
        ensures
            match r {
                Some(es) => lookup(self.fields@, collection@, key@) == Some(es@),
                None => lookup(self.fields@, collection@, key@) == None::<Seq<Entry>>,
            },
    {
        match self.find(collection, key) {
            Some(i) => Some(&self.fields[i].entries),
            None => None,
        }
    }

    /// Replaces the entries of `key` in `collection`.
    pub fn set_entries(&mut self, collection: &String, key: &String, entries: Vec<Entry>)
        requires
            old(self).wf(),
            field_ok(entries@),
        ensures
            final(self).wf(),
            forall|c: Seq<char>, k: Seq<char>| #[trigger] lookup(final(self).fields@, c, k) == if c == collection@ && k == key@ {
                Some(entries@)
            } else {
                lookup(old(self).fields@, c, k)
            },
    {
        let ghost before = self.fields@;
        let ghost new_entries = entries@;
        let f = FieldIndex { collection: collection.clone(), key: key.clone(), entries };
        match self.find(collection, key) {
            Some(i) => {
                self.fields.set(i, f);
                proof {
                    assert forall|j: int| 0 <= j < self.fields.len() implies field_ok(#[trigger] self.fields@[j].entries@) by {
                        if j != i {
                            assert(self.fields@[j] == before[j]);
                        }
                    }
                    assert forall|c: Seq<char>, k: Seq<char>| #[trigger] lookup(self.fields@, c, k) == if c == collection@ && k == key@ {
                        Some(new_entries)
                    } else {
                        lookup(before, c, k)
                    } by {
                        lemma_lookup_update(before, i as int, f, c, k);
                    }
                }
            },
            None => {
                self.fields.push(f);
                proof {
                    assert forall|j: int| 0 <= j < self.fields.len() implies field_ok(#[trigger] self.fields@[j].entries@) by {
                        if j < before.len() {
                            assert(self.fields@[j] == before[j]);
                        }
                    }
                    assert forall|c: Seq<char>, k: Seq<char>| #[trigger] lookup(self.fields@, c, k) == if c == collection@ && k == key@ {
                        Some(new_entries)
                    } else {
                        lookup(before, c, k)
                    } by {
                        lemma_lookup_push(before, f, c, k);
                    }
                }
            },
        }
    }

    /// Rebuilds, for each of `keys`, the entries of that field of `collection`
    /// from the collection's current documents `docs`.
    pub fn refresh(&mut self, collection: &String, keys: &Vec<String>, docs: &Vec<IdRecord>)
        requires
            old(self).wf(),
            doc_ids_unique(docs@),
        ensures
            final(self).wf(),
            refreshed(old(self).fields@, final(self).fields@, collection@, keys@, docs@),
    {
        let ghost before = self.fields@;
        let mut i: usize = 0;
        while i < keys.len()
            invariant
                i <= keys.len(),
                self.wf(),
                doc_ids_unique(docs@),
                refreshed(before, self.fields@, collection@, keys@.take(i as int), docs@),
            decreases keys.len() - i,
        {
            let es = build_entries(&keys[i], docs);
            let ghost mid = self.fields@;
            self.set_entries(collection, &keys[i], es);
            proof {
                let done = keys@.take(i + 1);
                assert(done =~= keys@.take(i as int).push(keys@[i as int]));
                assert forall|k: Seq<char>| #[trigger] key_in(done, k) <==> key_in(keys@.take(i as int), k) || k == keys@[i as int]@ by {
                    if key_in(done, k) {
                        let t = choose|t: int| 0 <= t < done.len() && #[trigger] done[t]@ == k;
                        if t < i {
                            assert(keys@.take(i as int)[t] == done[t]);
                        }
                    }
                    if key_in(keys@.take(i as int), k) {
                        let t = choose|t: int| 0 <= t < i && #[trigger] keys@.take(i as int)[t]@ == k;
                        assert(done[t] == keys@.take(i as int)[t]);
                    }
                    if k == keys@[i as int]@ {
                        assert(done[i as int] == keys@[i as int]);
                    }
                }
            }
            i = i + 1;
        }
        proof {
            assert(keys@.take(i as int) =~= keys@);
        }
    }
}

} // verus!
