use crate::db::{lists, Collection};
use crate::index::{
    doc_has, doc_ids_unique, field_value, has_entry, indexes_field, key_in, lookup, refreshed, value_of, Field,
    FieldIndex, IdRecord,
};
use crate::query::{query_selects, selects, Where};
use crate::record::{has_key, lemma_value_of_has_key, merged};
use crate::scalar::{cond_holds, lemma_scalar_order, scalar_lt, Condition, Scalar, ScalarV};
use vstd::prelude::*;

verus! {

/// The index agrees with the documents of `collection` on every field: a field
/// that was indexed holds exactly the documents' scalars under it, and a field
/// that never was is held by no document.
pub open spec fn consistent(index: Seq<FieldIndex>, collection: Seq<char>, docs: Seq<IdRecord>) -> bool {
    forall|k: Seq<char>| match #[trigger] lookup(index, collection, k) {
        Some(es) => indexes_field(es, docs, k),
        None => forall|id: Seq<char>, v: ScalarV| !doc_has(docs, id, k, v),
    }
}

/// The handle `collection` exists whenever the collection holds documents:
/// it was probed after they were written.
pub open spec fn faithful(collection: Collection, docs: Seq<IdRecord>) -> bool {
    collection.exist || docs.len() == 0
}

/// The fields of document `id` in `docs`, if `docs` holds it.
pub open spec fn doc_fields(docs: Seq<IdRecord>, id: Seq<char>) -> Option<Seq<Field<Option<Scalar>>>> {
    if exists|j: int| 0 <= j < docs.len() && #[trigger] docs[j].id@ == id {
        Some(docs[choose|j: int| 0 <= j < docs.len() && #[trigger] docs[j].id@ == id].fields@)
    } else {
        None
    }
}

/// The scalar of field `k` of document `id`, if the document exists and has one.
pub open spec fn doc_value(docs: Seq<IdRecord>, id: Seq<char>, k: Seq<char>) -> Option<ScalarV> {
    match doc_fields(docs, id) {
        Some(f) => field_value(f, k),
        None => None,
    }
}

/// `after` differs from `before` at most in document `id`, and there only in
/// fields named by `keys`.
pub open spec fn write_within(before: Seq<IdRecord>, after: Seq<IdRecord>, id: Seq<char>, keys: Seq<String>) -> bool {
    &&& forall|other: Seq<char>| other != id ==> #[trigger] doc_fields(after, other) == doc_fields(before, other)
    &&& forall|k: Seq<char>| !key_in(keys, k) ==> #[trigger] doc_value(after, id, k) == doc_value(before, id, k)
}

proof fn lemma_doc_has_value(docs: Seq<IdRecord>, id: Seq<char>, k: Seq<char>, v: ScalarV)
    requires
        doc_ids_unique(docs),
    ensures
        doc_has(docs, id, k, v) <==> doc_value(docs, id, k) == Some(v),
{
    if doc_has(docs, id, k, v) {
        let j = choose|j: int| 0 <= j < docs.len() && #[trigger] docs[j].id@ == id && field_value(docs[j].fields@, k) == Some(v);
        let c = choose|j: int| 0 <= j < docs.len() && #[trigger] docs[j].id@ == id;
        assert(docs[c].id@ == docs[j].id@);
    }
    if doc_value(docs, id, k) == Some(v) {
        let c = choose|j: int| 0 <= j < docs.len() && #[trigger] docs[j].id@ == id;
        assert(docs[c].id@ == id);
    }
}

/// An index stays consistent through a write: if it agreed with the
/// documents before, and the write changed only fields that the refresh
/// rebuilt, it agrees with the documents after.
pub proof fn lemma_write_keeps_consistent(
    index_before: Seq<FieldIndex>,
    index_after: Seq<FieldIndex>,
    collection: Seq<char>,
    docs_before: Seq<IdRecord>,
    docs_after: Seq<IdRecord>,
    id: Seq<char>,
    keys: Seq<String>,
)
    requires
        doc_ids_unique(docs_before),
        doc_ids_unique(docs_after),
        consistent(index_before, collection, docs_before),
        write_within(docs_before, docs_after, id, keys),
        refreshed(index_before, index_after, collection, keys, docs_after),
    ensures
        consistent(index_after, collection, docs_after),
{
    assert forall|k: Seq<char>| match #[trigger] lookup(index_after, collection, k) {
        Some(es) => indexes_field(es, docs_after, k),
        None => forall|x: Seq<char>, v: ScalarV| !doc_has(docs_after, x, k, v),
    } by {
        if !key_in(keys, k) {
            assert(lookup(index_after, collection, k) == lookup(index_before, collection, k));
            assert forall|x: Seq<char>, v: ScalarV| #[trigger] doc_has(docs_after, x, k, v) == doc_has(docs_before, x, k, v) by {
                lemma_doc_has_value(docs_after, x, k, v);
                lemma_doc_has_value(docs_before, x, k, v);
                if x != id {
                    assert(doc_fields(docs_after, x) == doc_fields(docs_before, x));
                } else {
                    assert(doc_value(docs_after, id, k) == doc_value(docs_before, id, k));
                }
            }
            match lookup(index_before, collection, k) {
                Some(es) => {
                    assert(indexes_field(es, docs_before, k));
                    assert forall|x: Seq<char>, v: ScalarV| has_entry(es, x, v) <==> doc_has(docs_after, x, k, v) by {
                        assert(doc_has(docs_after, x, k, v) == doc_has(docs_before, x, k, v));
                    }
                },
                None => {
                    assert forall|x: Seq<char>, v: ScalarV| !doc_has(docs_after, x, k, v) by {
                        assert(doc_has(docs_after, x, k, v) == doc_has(docs_before, x, k, v));
                    }
                },
            }
        } else {
            assert(key_in(keys, k));
        }
    }
}

/// Over several writes in a row, each covered by its refresh, an index that
/// started consistent with the documents ends consistent with them.
pub proof fn lemma_writes_keep_consistent(
    indexes: Seq<Seq<FieldIndex>>,
    docs: Seq<Seq<IdRecord>>,
    ids: Seq<Seq<char>>,
    keys: Seq<Seq<String>>,
    collection: Seq<char>,
)
    requires
        indexes.len() == docs.len(),
        ids.len() + 1 == docs.len(),
        keys.len() + 1 == docs.len(),
        forall|i: int| 0 <= i < docs.len() ==> doc_ids_unique(#[trigger] docs[i]),
        consistent(indexes[0], collection, docs[0]),
        forall|i: int| 0 <= i < ids.len() ==> #[trigger] write_within(docs[i], docs[i + 1], ids[i], keys[i]),
        forall|i: int| 0 <= i < ids.len() ==> #[trigger] refreshed(indexes[i], indexes[i + 1], collection, keys[i], docs[i + 1]),
    ensures
        consistent(indexes.last(), collection, docs.last()),
    decreases ids.len(),
{
    if ids.len() > 0 {
        let n = ids.len() - 1;
        assert(write_within(docs[n], docs[n + 1], ids[n], keys[n]));
        assert(refreshed(indexes[n], indexes[n + 1], collection, keys[n], docs[n + 1]));
        lemma_writes_keep_consistent(indexes.drop_last(), docs.drop_last(), ids.drop_last(), keys.drop_last(), collection);
        assert(indexes.drop_last().last() == indexes[n]);
        assert(docs.drop_last().last() == docs[n]);
        lemma_write_keeps_consistent(indexes[n], indexes[n + 1], collection, docs[n], docs[n + 1], ids[n], keys[n]);
    }
}

/// The fields that `Document::set` rebuilds (those of the new record and of
/// the former one) cover every field the write changes.
pub proof fn lemma_set_covers(
    record: Seq<Field<Option<Scalar>>>,
    previous: Option<Seq<Field<Option<Scalar>>>>,
    keys: Seq<String>,
    k: Seq<char>,
)
    requires
        forall|x: Seq<char>| #[trigger] key_in(keys, x) <==> has_key(record, x) || match previous {
            Some(p) => has_key(p, x),
            None => false,
        },
        !key_in(keys, k),
    ensures
        field_value(record, k) == match previous {
            Some(p) => field_value(p, k),
            None => None::<ScalarV>,
        },
        field_value(record, k) is None,
{
    lemma_value_of_has_key(record, k);
    match previous {
        Some(p) => {
            lemma_value_of_has_key(p, k);
        },
        None => {},
    }
}

/// The fields that `Document::update` rebuilds (those of the partial record)
/// cover every field the merge changes.
pub proof fn lemma_update_covers(
    stored: Seq<Field<Option<Scalar>>>,
    partial: Seq<Field<Option<Scalar>>>,
    merged_record: Seq<Field<Option<Scalar>>>,
    keys: Seq<String>,
    k: Seq<char>,
)
    requires
        forall|x: Seq<char>| #[trigger] value_of(merged_record, x) == merged(stored, partial, x),
        forall|x: Seq<char>| #[trigger] key_in(keys, x) <==> has_key(partial, x),
        !key_in(keys, k),
    ensures
        field_value(merged_record, k) == field_value(stored, k),
{
    lemma_value_of_has_key(partial, k);
    assert(value_of(merged_record, k) == merged(stored, partial, k));
}

/// The fields that `Document::delete` rebuilds (those of the removed record)
/// cover every field the removal changes.
pub proof fn lemma_delete_covers(stored: Option<Seq<Field<Option<Scalar>>>>, keys: Seq<String>, k: Seq<char>)
    requires
        forall|x: Seq<char>| #[trigger] key_in(keys, x) <==> match stored {
            Some(p) => has_key(p, x),
            None => false,
        },
        !key_in(keys, k),
    ensures
        match stored {
            Some(p) => field_value(p, k) is None,
            None => true,
        },
{
    match stored {
        Some(p) => {
            lemma_value_of_has_key(p, k);
        },
        None => {},
    }
}

/// Over a consistent index, a predicate selects exactly the documents whose
/// scalar under the field satisfies it.
pub proof fn lemma_query_exact(
    index: Seq<FieldIndex>,
    collection: Collection,
    docs: Seq<IdRecord>,
    key: Seq<char>,
    cond: Condition,
    v: ScalarV,
    id: Seq<char>,
)
    requires
        faithful(collection, docs),
        doc_ids_unique(docs),
        consistent(index, collection.path@, docs),
    ensures
        query_selects(index, collection, key, cond, v, id) <==> match doc_value(docs, id, key) {
            Some(w) => cond_holds(w, cond, v),
            None => false,
        },
{
    if !collection.exist {
        assert(doc_fields(docs, id) is None);
    } else {
        assert(consistent(index, collection.path@, docs));
        let lk = lookup(index, collection.path@, key);
        match doc_value(docs, id, key) {
            Some(w) => {
                lemma_doc_has_value(docs, id, key, w);
                match lk {
                    Some(es) => {
                        assert(indexes_field(es, docs, key));
                        assert(has_entry(es, id, w));
                        if selects(es, cond, v, id) {
                            let i = choose|i: int| 0 <= i < es.len() && #[trigger] es[i].id@ == id && cond_holds(es[i].value@, cond, v);
                            assert(has_entry(es, id, es[i].value@));
                            lemma_doc_has_value(docs, id, key, es[i].value@);
                        }
                        if cond_holds(w, cond, v) {
                            let t = choose|t: int| 0 <= t < es.len() && #[trigger] es[t].id@ == id && es[t].value@ == w;
                            assert(selects(es, cond, v, id));
                        }
                    },
                    None => {
                        assert(!doc_has(docs, id, key, w));
                    },
                }
            },
            None => {
                match lk {
                    Some(es) => {
                        assert(indexes_field(es, docs, key));
                        if selects(es, cond, v, id) {
                            let i = choose|i: int| 0 <= i < es.len() && #[trigger] es[i].id@ == id && cond_holds(es[i].value@, cond, v);
                            assert(has_entry(es, id, es[i].value@));
                            lemma_doc_has_value(docs, id, key, es[i].value@);
                        }
                    },
                    None => {},
                }
            },
        }
    }
}

/// Over a consistent index, `Equal v` on a field selects exactly the
/// documents whose field holds `v`, and no others.
pub proof fn lemma_equal_finds_holders(
    index: Seq<FieldIndex>,
    collection: Collection,
    docs: Seq<IdRecord>,
    key: Seq<char>,
    v: ScalarV,
    id: Seq<char>,
)
    requires
        faithful(collection, docs),
        doc_ids_unique(docs),
        consistent(index, collection.path@, docs),
    ensures
        query_selects(index, collection, key, Condition::Equal, v, id) <==> doc_has(docs, id, key, v),
{
    lemma_query_exact(index, collection, docs, key, Condition::Equal, v, id);
    lemma_doc_has_value(docs, id, key, v);
}

/// Over a consistent index: `Less v` selects exactly the documents whose
/// field is below `v`; `GreaterOrEqual v` selects exactly the other documents
/// that have the field; `Equal v` and `NotEqual v` split the documents that
/// have the field, each going to exactly one side.
pub proof fn lemma_ordering_partitions(
    index: Seq<FieldIndex>,
    collection: Collection,
    docs: Seq<IdRecord>,
    key: Seq<char>,
    v: ScalarV,
    id: Seq<char>,
)
    requires
        faithful(collection, docs),
        doc_ids_unique(docs),
        consistent(index, collection.path@, docs),
    ensures
        query_selects(index, collection, key, Condition::Less, v, id) <==> (exists|w: ScalarV| doc_has(docs, id, key, w) && scalar_lt(w, v)),
        query_selects(index, collection, key, Condition::GreaterOrEqual, v, id) <==> (doc_value(docs, id, key) is Some
            && !query_selects(index, collection, key, Condition::Less, v, id)),
        !(query_selects(index, collection, key, Condition::Equal, v, id) && query_selects(index, collection, key, Condition::NotEqual, v, id)),
        doc_value(docs, id, key) is Some <==> (query_selects(index, collection, key, Condition::Equal, v, id) || query_selects(
            index,
            collection,
            key,
            Condition::NotEqual,
            v,
            id,
        )),
{
    lemma_query_exact(index, collection, docs, key, Condition::Less, v, id);
    lemma_query_exact(index, collection, docs, key, Condition::GreaterOrEqual, v, id);
    lemma_query_exact(index, collection, docs, key, Condition::Equal, v, id);
    lemma_query_exact(index, collection, docs, key, Condition::NotEqual, v, id);
    match doc_value(docs, id, key) {
        Some(w) => {
            lemma_doc_has_value(docs, id, key, w);
            lemma_scalar_order(w, v, v);
        },
        None => {},
    }
    if exists|w: ScalarV| doc_has(docs, id, key, w) && scalar_lt(w, v) {
        let w = choose|w: ScalarV| doc_has(docs, id, key, w) && scalar_lt(w, v);
        lemma_doc_has_value(docs, id, key, w);
    }
}

/// A document that the collection does not hold is selected by no
/// predicate of a consistent index: once deleted, no query returns it.
pub proof fn lemma_absent_doc_unselected(
    index: Seq<FieldIndex>,
    collection: Collection,
    docs: Seq<IdRecord>,
    key: Seq<char>,
    cond: Condition,
    v: ScalarV,
    id: Seq<char>,
)
    requires
        doc_ids_unique(docs),
        consistent(index, collection.path@, docs),
        doc_fields(docs, id) is None,
    ensures
        !query_selects(index, collection, key, cond, v, id),
{
    if collection.exist {
        lemma_query_exact(index, collection, docs, key, cond, v, id);
    }
}

/// A collection that does not exist answers every predicate with nothing.
pub proof fn lemma_absent_collection_empty(
    index: Seq<FieldIndex>,
    collection: Collection,
    key: Seq<char>,
    cond: Condition,
    v: ScalarV,
    id: Seq<char>,
)
    requires
        !collection.exist,
    ensures
        !query_selects(index, collection, key, cond, v, id),
{
}

/// Two chains of the same two predicates on one collection, built in
/// opposite orders (`Where::new` with the first, then `Where::wherr` with the
/// second), hold the same documents: those that each predicate selects alone.
pub proof fn lemma_chain_commutes(
    index: Seq<FieldIndex>,
    collection: Collection,
    k1: Seq<char>,
    c1: Condition,
    v1: ScalarV,
    k2: Seq<char>,
    c2: Condition,
    v2: ScalarV,
    first: Where,
    chained: Where,
    other_first: Where,
    other_chained: Where,
)
    requires
        forall|id: Seq<char>| #[trigger] lists(first.result@, id) <==> query_selects(index, collection, k1, c1, v1, id),
        forall|id: Seq<char>| #[trigger] lists(chained.result@, id) <==> lists(first.result@, id) && query_selects(
            index,
            collection,
            k2,
            c2,
            v2,
            id,
        ),
        forall|id: Seq<char>| #[trigger] lists(other_first.result@, id) <==> query_selects(index, collection, k2, c2, v2, id),
        forall|id: Seq<char>| #[trigger] lists(other_chained.result@, id) <==> lists(other_first.result@, id)
            && query_selects(index, collection, k1, c1, v1, id),
    ensures
        forall|id: Seq<char>| #[trigger] lists(chained.result@, id) <==> lists(other_chained.result@, id),
        forall|id: Seq<char>| #[trigger] lists(chained.result@, id) <==> (query_selects(index, collection, k1, c1, v1, id)
            && query_selects(index, collection, k2, c2, v2, id)),
{
    assert forall|id: Seq<char>| #[trigger] lists(chained.result@, id) <==> lists(other_chained.result@, id) by {
        assert(lists(first.result@, id) <==> query_selects(index, collection, k1, c1, v1, id));
        assert(lists(other_first.result@, id) <==> query_selects(index, collection, k2, c2, v2, id));
    }
    assert forall|id: Seq<char>| #[trigger] lists(chained.result@, id) <==> (query_selects(index, collection, k1, c1, v1, id)
        && query_selects(index, collection, k2, c2, v2, id)) by {
        assert(lists(first.result@, id) <==> query_selects(index, collection, k1, c1, v1, id));
    }
}

/// A new store is consistent: no field of the collection was indexed and it
/// holds no document.
pub proof fn lemma_fresh_consistent(index: Seq<FieldIndex>, collection: Seq<char>, docs: Seq<IdRecord>)
    requires
        forall|k: Seq<char>| #[trigger] lookup(index, collection, k) is None,
        docs.len() == 0,
    ensures
        consistent(index, collection, docs),
{
    assert forall|k: Seq<char>| match #[trigger] lookup(index, collection, k) {
        Some(es) => indexes_field(es, docs, k),
        None => forall|id: Seq<char>, v: ScalarV| !doc_has(docs, id, k, v),
    } by {
        assert(lookup(index, collection, k) is None);
    }
}

/// States `0..n` of a store written from new: `docs[i]` are the collection's
/// documents and `indexes[i]` the index after the `i`-th write, which changed
/// document `ids[i]` only in fields `keys[i]` and refreshed those fields.
pub open spec fn written_from_new(
    indexes: Seq<Seq<FieldIndex>>,
    docs: Seq<Seq<IdRecord>>,
    ids: Seq<Seq<char>>,
    keys: Seq<Seq<String>>,
    collection: Seq<char>,
) -> bool {
    &&& indexes.len() == docs.len()
    &&& ids.len() + 1 == docs.len()
    &&& keys.len() + 1 == docs.len()
    &&& forall|i: int| 0 <= i < docs.len() ==> doc_ids_unique(#[trigger] docs[i])
    &&& forall|k: Seq<char>| #[trigger] lookup(indexes[0], collection, k) is None
    &&& docs[0].len() == 0
    &&& forall|i: int| 0 <= i < ids.len() ==> #[trigger] write_within(docs[i], docs[i + 1], ids[i], keys[i])
    &&& forall|i: int| 0 <= i < ids.len() ==> #[trigger] refreshed(indexes[i], indexes[i + 1], collection, keys[i], docs[i + 1])
}

/// After any sequence of writes to a new store, `Equal v` on a field selects
/// exactly the documents whose field holds `v`.
pub proof fn lemma_equal_after_writes(
    indexes: Seq<Seq<FieldIndex>>,
    docs: Seq<Seq<IdRecord>>,
    ids: Seq<Seq<char>>,
    keys: Seq<Seq<String>>,
    collection: Collection,
    key: Seq<char>,
    v: ScalarV,
    id: Seq<char>,
)
    requires
        written_from_new(indexes, docs, ids, keys, collection.path@),
        faithful(collection, docs.last()),
    ensures
        query_selects(indexes.last(), collection, key, Condition::Equal, v, id) <==> doc_has(docs.last(), id, key, v),
{
    lemma_written_consistent(indexes, docs, ids, keys, collection.path@);
    lemma_equal_finds_holders(indexes.last(), collection, docs.last(), key, v, id);
}

/// After any sequence of writes to a new store, `Less`, `GreaterOrEqual`,
/// `Equal` and `NotEqual` split the documents as `lemma_ordering_partitions`
/// states.
pub proof fn lemma_ordering_after_writes(
    indexes: Seq<Seq<FieldIndex>>,
    docs: Seq<Seq<IdRecord>>,
    ids: Seq<Seq<char>>,
    keys: Seq<Seq<String>>,
    collection: Collection,
    key: Seq<char>,
    v: ScalarV,
    id: Seq<char>,
)
    requires
        written_from_new(indexes, docs, ids, keys, collection.path@),
        faithful(collection, docs.last()),
    ensures
        query_selects(indexes.last(), collection, key, Condition::Less, v, id) <==> (exists|w: ScalarV|
            doc_has(docs.last(), id, key, w) && scalar_lt(w, v)),
        query_selects(indexes.last(), collection, key, Condition::GreaterOrEqual, v, id) <==> (doc_value(
            docs.last(),
            id,
            key,
        ) is Some && !query_selects(indexes.last(), collection, key, Condition::Less, v, id)),
        !(query_selects(indexes.last(), collection, key, Condition::Equal, v, id) && query_selects(
            indexes.last(),
            collection,
            key,
            Condition::NotEqual,
            v,
            id,
        )),
        doc_value(docs.last(), id, key) is Some <==> (query_selects(indexes.last(), collection, key, Condition::Equal, v, id)
            || query_selects(indexes.last(), collection, key, Condition::NotEqual, v, id)),
{
    lemma_written_consistent(indexes, docs, ids, keys, collection.path@);
    lemma_ordering_partitions(indexes.last(), collection, docs.last(), key, v, id);
}

/// After any sequence of writes to a new store, a document that the
/// collection no longer holds (the last write deleted it) is selected by no
/// predicate.
pub proof fn lemma_deleted_after_writes(
    indexes: Seq<Seq<FieldIndex>>,
    docs: Seq<Seq<IdRecord>>,
    ids: Seq<Seq<char>>,
    keys: Seq<Seq<String>>,
    collection: Collection,
    key: Seq<char>,
    cond: Condition,
    v: ScalarV,
    id: Seq<char>,
)
    requires
        written_from_new(indexes, docs, ids, keys, collection.path@),
        doc_fields(docs.last(), id) is None,
    ensures
        !query_selects(indexes.last(), collection, key, cond, v, id),
{
    lemma_written_consistent(indexes, docs, ids, keys, collection.path@);
    lemma_absent_doc_unselected(indexes.last(), collection, docs.last(), key, cond, v, id);
}

/// Writes from a new store keep the index consistent with the documents.
pub proof fn lemma_written_consistent(
    indexes: Seq<Seq<FieldIndex>>,
    docs: Seq<Seq<IdRecord>>,
    ids: Seq<Seq<char>>,
    keys: Seq<Seq<String>>,
    collection: Seq<char>,
)
    requires
        written_from_new(indexes, docs, ids, keys, collection),
    ensures
        consistent(indexes.last(), collection, docs.last()),
        doc_ids_unique(docs.last()),
{
    lemma_fresh_consistent(indexes[0], collection, docs[0]);
    lemma_writes_keep_consistent(indexes, docs, ids, keys, collection);
    assert(doc_ids_unique(docs[docs.len() - 1]));
}

} // verus!
