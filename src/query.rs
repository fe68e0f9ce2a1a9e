use crate::db::{lists, Collection, Document, IdDocument};
use crate::index::{below, count_below, ids_unique, is_sorted, lemma_lookup_sorted, lookup, Entry, FieldIndex, StoreIndex};
use crate::scalar::{cond_holds, lemma_scalar_order, Condition, Scalar, ScalarV};
use vstd::prelude::*;

verus! {

/// Some entry of `es` names document `id` and satisfies `cond` against `v`.
pub open spec fn selects(es: Seq<Entry>, cond: Condition, v: ScalarV, id: Seq<char>) -> bool {
    exists|i: int| 0 <= i < es.len() && #[trigger] es[i].id@ == id && cond_holds(es[i].value@, cond, v)
}

/// Document `id` of `collection` answers the predicate `key cond v` under
/// `index`: the collection exists and the field's entries select it.
pub open spec fn query_selects(
    index: Seq<FieldIndex>,
    collection: Collection,
    key: Seq<char>,
    cond: Condition,
    v: ScalarV,
    id: Seq<char>,
) -> bool {
    &&& collection.exist
    &&& lookup(index, collection.path@, key) is Some
    &&& selects(lookup(index, collection.path@, key)->0, cond, v, id)
}

/// Each of `docs` is a handle on an existing document of `collection`, named
/// by its id.
pub open spec fn handles(docs: Seq<IdDocument>, collection: Collection) -> bool {
    forall|t: int| 0 <= t < docs.len() ==> {
        &&& (#[trigger] docs[t]).doc.name@ == docs[t].id@
        &&& docs[t].doc.collection == collection
        &&& docs[t].doc.exist
    }
}

/// No two of `docs` share an id.
pub open spec fn ids_distinct(docs: Seq<IdDocument>) -> bool {
    forall|a: int, b: int| 0 <= a < docs.len() && 0 <= b < docs.len() && a != b ==> #[trigger] docs[a].id@ != #[trigger] docs[b].id@
}

spec fn in_range(es: Seq<Entry>, from: int, to: int, id: Seq<char>) -> bool {
    exists|i: int| from <= i < to && #[trigger] es[i].id@ == id
}

/// A chainable query over one collection: the documents that satisfy every
/// predicate applied so far.
pub struct Where {
    pub collection: Collection,
    pub result: Vec<IdDocument>,
}

impl Collection {
    /// The documents of this collection whose field `key` satisfies `cond`
    /// against `value`.
    pub fn wherr(self, index: &StoreIndex, key: String, cond: Condition, value: Scalar) -> (r: Where)
        requires
            index.wf(),
        ensures
            r.collection == self,
            handles(r.result@, self),
            ids_distinct(r.result@),
            forall|id: Seq<char>| #[trigger] lists(r.result@, id) <==> query_selects(index.fields@, self, key@, cond, value@, id),
    {
        Where::new(self, index, key, cond, value)
    }
}

impl Where {
    /// Starts a query on `collection` with the predicate `key cond value`.
    pub fn new(collection: Collection, index: &StoreIndex, key: String, cond: Condition, value: Scalar) -> (r: Where)
        requires
            index.wf(),
        ensures
            r.collection == collection,
            handles(r.result@, collection),
            ids_distinct(r.result@),
            forall|id: Seq<char>| #[trigger] lists(r.result@, id) <==> query_selects(index.fields@, collection, key@, cond, value@, id),
    {
        let result = search(&collection, index, &key, cond, &value);
        Where { collection, result }
    }

    /// Narrows the query to the documents that also satisfy `key cond value`.
    pub fn wherr(self, index: &StoreIndex, key: String, cond: Condition, value: Scalar) -> (r: Where)
        requires
            index.wf(),
        ensures
            r.collection == self.collection,
            handles(r.result@, self.collection),
            ids_distinct(r.result@),
            forall|id: Seq<char>| #[trigger] lists(r.result@, id) <==> lists(self.result@, id)
                && query_selects(index.fields@, self.collection, key@, cond, value@, id),
    {
        let other = search(&self.collection, index, &key, cond, &value);
        let mut out: Vec<IdDocument> = Vec::new();
        let mut i: usize = 0;
        while i < self.result.len()
            invariant
                i <= self.result.len(),
                handles(out@, self.collection),
                ids_distinct(out@),
                forall|id: Seq<char>| #[trigger] lists(out@, id) <==> (exists|t: int| 0 <= t < i && #[trigger] self.result@[t].id@ == id)
                    && lists(other@, id),
            decreases self.result.len() - i,
        {
            let ghost before = out@;
            if contains_id(&other, &self.result[i].id) && !contains_id(&out, &self.result[i].id) {
                let d = IdDocument::new(
                    self.result[i].id.clone(),
                    Document::new(self.result[i].id.as_str(), self.collection.copy(), true),
                );
                out.push(d);
                proof {
                    assert forall|a: int, b: int| 0 <= a < out@.len() && 0 <= b < out@.len() && a != b implies #[trigger] out@[a].id@
                        != #[trigger] out@[b].id@ by {
                        if a < before.len() && b < before.len() {
                            assert(out@[a] == before[a]);
                            assert(out@[b] == before[b]);
                        } else if a < before.len() {
                            assert(out@[a] == before[a]);
                        } else {
                            assert(out@[b] == before[b]);
                        }
                    }
                    assert forall|t: int| 0 <= t < out@.len() implies {
                        &&& (#[trigger] out@[t]).doc.name@ == out@[t].id@
                        &&& out@[t].doc.collection == self.collection
                        &&& out@[t].doc.exist
                    } by {
                        if t < before.len() {
                            assert(out@[t] == before[t]);
                        }
                    }
                    assert forall|id: Seq<char>| #[trigger] lists(out@, id) <==> (exists|t: int| 0 <= t < i + 1 && #[trigger] self.result@[t].id@ == id)
                        && lists(other@, id) by {
                        if lists(out@, id) {
                            let t = choose|t: int| 0 <= t < out@.len() && #[trigger] out@[t].id@ == id;
                            if t < before.len() {
                                assert(out@[t] == before[t]);
                                assert(lists(before, id));
                            }
                        }
                        if (exists|t: int| 0 <= t < i + 1 && #[trigger] self.result@[t].id@ == id) && lists(other@, id) {
                            let t = choose|t: int| 0 <= t < i + 1 && #[trigger] self.result@[t].id@ == id;
                            if t < i {
                                assert(lists(before, id));
                                let u = choose|u: int| 0 <= u < before.len() && #[trigger] before[u].id@ == id;
                                assert(out@[u] == before[u]);
                            } else {
                                assert(out@[before.len() as int].id@ == id);
                            }
                        }
                    }
                }
            } else {
                proof {
                    assert forall|id: Seq<char>| #[trigger] lists(out@, id) <==> (exists|t: int| 0 <= t < i + 1 && #[trigger] self.result@[t].id@ == id)
                        && lists(other@, id) by {
                        if (exists|t: int| 0 <= t < i + 1 && #[trigger] self.result@[t].id@ == id) && lists(other@, id) {
                            let t = choose|t: int| 0 <= t < i + 1 && #[trigger] self.result@[t].id@ == id;
                            if t == i {
                                assert(lists(out@, id));
                            }
                        }
                    }
                }
            }
            i = i + 1;
        }
        proof {
            assert forall|id: Seq<char>| #[trigger] lists(self.result@, id) <==> (exists|t: int| 0 <= t < i && #[trigger] self.result@[t].id@ == id) by {}
        }
        Where { collection: self.collection, result: out }
    }

    /// The documents that satisfy every predicate of the query.
    pub fn get(self) -> (r: Vec<IdDocument>)
        ensures
            r == self.result,
    {
        self.result
    }

    /// `(0, n)`: the first `n` entries of sorted `v` are below `val`
    /// (strictly when `strict`, else at most equal), the rest are not.
    pub fn get_greater(v: &Vec<Entry>, val: &Scalar, strict: bool) -> (r: (usize, usize))
        requires
            is_sorted(v@),
        ensures
            r.0 == 0,
            r.1 <= v.len(),
            forall|i: int| 0 <= i < r.1 ==> below(#[trigger] v@[i].value@, val@, !strict),
            forall|i: int| r.1 <= i < v.len() ==> !below(#[trigger] v@[i].value@, val@, !strict),
    {
        (0, count_below(v, val, !strict))
    }

    /// `(g, n)`: the last `n` entries of sorted `v`, from `g` on, are above
    /// `val` (strictly when `strict`, else at least equal), the rest are not.
    pub fn get_less(v: &Vec<Entry>, val: &Scalar, strict: bool) -> (r: (usize, usize))
        requires
            is_sorted(v@),
        ensures
            r.0 + r.1 == v.len(),
            forall|i: int| 0 <= i < r.0 ==> below(#[trigger] v@[i].value@, val@, strict),
            forall|i: int| r.0 <= i < v.len() ==> !below(#[trigger] v@[i].value@, val@, strict),
    {
        let g = Where::get_greater(v, val, !strict).1;
        (g, v.len() - g)
    }

    /// `(s, n)`: the entries of sorted `v` equal to `val` are exactly the `n`
    /// from position `s`.
    pub fn get_equal(v: &Vec<Entry>, val: &Scalar) -> (r: (usize, usize))
        requires
            is_sorted(v@),
        ensures
            r.0 + r.1 <= v.len(),
            forall|i: int| 0 <= i < v.len() ==> (r.0 <= i < r.0 + r.1 <==> #[trigger] v@[i].value@ == val@),
    {
        let less = Where::get_less(v, val, false);
        let greater = Where::get_greater(v, val, false);
        proof {
            assert forall|i: int| 0 <= i < v.len() implies (less.0 <= i < greater.1 <==> #[trigger] v@[i].value@ == val@) by {
                lemma_scalar_order(v@[i].value@, val@, val@);
            }
            if less.0 > greater.1 {
                let i = greater.1 as int;
                assert(below(v@[i].value@, val@, false));
                assert(!below(v@[i].value@, val@, true));
            }
        }
        (less.0, greater.1 - less.0)
    }
}

/// Whether `docs` holds a document with id `id`.
fn contains_id(docs: &Vec<IdDocument>, id: &String) -> (r: bool)
    ensures
        r == lists(docs@, id@),
{
    let mut i: usize = 0;
    while i < docs.len()
        invariant
            i <= docs.len(),
            forall|t: int| 0 <= t < i ==> #[trigger] docs@[t].id@ != id@,
        decreases docs.len() - i,
    {
        if docs[i].id == *id {
            return true;
        }
        i = i + 1;
    }
    false
}

/// Appends a handle for each of the entries `es[from..to]`.
fn push_range(out: &mut Vec<IdDocument>, es: &Vec<Entry>, from: usize, to: usize, collection: &Collection)
    requires
        from <= to <= es.len(),
        handles(old(out)@, *collection),
        ids_distinct(old(out)@),
        ids_unique(es@),
        forall|id: Seq<char>| #[trigger] lists(old(out)@, id) ==> !in_range(es@, from as int, to as int, id),
    ensures
        handles(final(out)@, *collection),
        ids_distinct(final(out)@),
        forall|id: Seq<char>| #[trigger] lists(final(out)@, id) <==> lists(old(out)@, id) || in_range(es@, from as int, to as int, id),
{
    let ghost before = out@;
    let mut i = from;
    while i < to
        invariant
            from <= i <= to <= es.len(),
            handles(out@, *collection),
            ids_distinct(out@),
            ids_unique(es@),
            forall|id: Seq<char>| #[trigger] lists(before, id) ==> !in_range(es@, from as int, to as int, id),
            forall|id: Seq<char>| #[trigger] lists(out@, id) <==> lists(before, id) || in_range(es@, from as int, i as int, id),
        decreases to - i,
    {
        let ghost mid = out@;
        proof {
            assert(!lists(mid, es@[i as int].id@)) by {
                if lists(mid, es@[i as int].id@) {
                    if lists(before, es@[i as int].id@) {
                        assert(in_range(es@, from as int, to as int, es@[i as int].id@));
                    } else {
                        let j = choose|j: int| from <= j < i && #[trigger] es@[j].id@ == es@[i as int].id@;
                        assert(es@[j].id@ != es@[i as int].id@);
                    }
                }
            }
        }
        let d = IdDocument::new(es[i].id.clone(), Document::new(es[i].id.as_str(), collection.copy(), true));
        out.push(d);
        proof {
            assert forall|a: int, b: int| 0 <= a < out@.len() && 0 <= b < out@.len() && a != b implies #[trigger] out@[a].id@
                != #[trigger] out@[b].id@ by {
                if a < mid.len() && b < mid.len() {
                    assert(out@[a] == mid[a]);
                    assert(out@[b] == mid[b]);
                } else if a < mid.len() {
                    assert(out@[a] == mid[a]);
                    assert(lists(mid, mid[a].id@));
                } else {
                    assert(out@[b] == mid[b]);
                    assert(lists(mid, mid[b].id@));
                }
            }
            assert forall|t: int| 0 <= t < out@.len() implies {
                &&& (#[trigger] out@[t]).doc.name@ == out@[t].id@
                &&& out@[t].doc.collection == *collection
                &&& out@[t].doc.exist
            } by {
                if t < mid.len() {
                    assert(out@[t] == mid[t]);
                }
            }
            assert forall|id: Seq<char>| #[trigger] lists(out@, id) <==> lists(before, id) || in_range(es@, from as int, i + 1, id) by {
                if lists(out@, id) {
                    let t = choose|t: int| 0 <= t < out@.len() && #[trigger] out@[t].id@ == id;
                    if t < mid.len() {
                        assert(out@[t] == mid[t]);
                        assert(lists(mid, id));
                    } else {
                        assert(es@[i as int].id@ == id);
                    }
                }
                if lists(before, id) || in_range(es@, from as int, i as int, id) {
                    assert(lists(mid, id));
                    let t = choose|t: int| 0 <= t < mid.len() && #[trigger] mid[t].id@ == id;
                    assert(out@[t] == mid[t]);
                }
                if in_range(es@, from as int, i + 1, id) && !in_range(es@, from as int, i as int, id) {
                    let j = choose|j: int| from <= j < i + 1 && #[trigger] es@[j].id@ == id;
                    assert(j == i);
                    assert(out@[mid.len() as int].id@ == id);
                }
            }
        }
        i = i + 1;
    }
}

/// The documents of `collection` whose field `key` satisfies `cond` against
/// `value`, found by bisection over the field's sorted entries.
fn search(collection: &Collection, index: &StoreIndex, key: &String, cond: Condition, value: &Scalar) -> (r: Vec<IdDocument>)
    requires
        index.wf(),
    ensures
        handles(r@, *collection),
        ids_distinct(r@),
        forall|id: Seq<char>| #[trigger] lists(r@, id) <==> query_selects(index.fields@, *collection, key@, cond, value@, id),
{
    let mut out: Vec<IdDocument> = Vec::new();
    if !collection.exist {
        return out;
    }
    let sorted = match index.entries(&collection.path, key) {
        Some(es) => es,
        None => {
            return out;
        },
    };
    proof {
        lemma_lookup_sorted(index.fields@, collection.path@, key@);
    }
    let n = sorted.len();
    let (a1, b1, a2, b2) = match cond {
        Condition::Equal => {
            let r = Where::get_equal(sorted, value);
            (r.0, r.0 + r.1, n, n)
        },
        Condition::NotEqual => {
            let r = Where::get_equal(sorted, value);
            (0, r.0, r.0 + r.1, n)
        },
        Condition::Less => {
            let r = Where::get_greater(sorted, value, true);
            (0, r.1, n, n)
        },
        Condition::LessOrEqual => {
            let r = Where::get_greater(sorted, value, false);
            (0, r.1, n, n)
        },
        Condition::Greater => {
            let r = Where::get_less(sorted, value, true);
            (r.0, n, n, n)
        },
        Condition::GreaterOrEqual => {
            let r = Where::get_less(sorted, value, false);
            (r.0, n, n, n)
        },
    };
    proof {
        assert forall|i: int| 0 <= i < n implies ((a1 <= i < b1 || a2 <= i < b2) <==> cond_holds(
            #[trigger] sorted@[i].value@,
            cond,
            value@,
        )) by {
            lemma_scalar_order(sorted@[i].value@, value@, value@);
            lemma_scalar_order(value@, sorted@[i].value@, value@);
        }
    }
    proof {
        assert(b1 <= a2);
        assert(ids_unique(sorted@));
    }
    push_range(&mut out, sorted, a1, b1, collection);
    proof {
        assert forall|id: Seq<char>| #[trigger] lists(out@, id) implies !in_range(sorted@, a2 as int, b2 as int, id) by {
            if in_range(sorted@, a2 as int, b2 as int, id) {
                let i = choose|i: int| a1 <= i < b1 && #[trigger] sorted@[i].id@ == id;
                let j = choose|j: int| a2 <= j < b2 && #[trigger] sorted@[j].id@ == id;
                assert(i != j);
            }
        }
    }
    push_range(&mut out, sorted, a2, b2, collection);
    proof {
        assert forall|id: Seq<char>| #[trigger] lists(out@, id) <==> selects(sorted@, cond, value@, id) by {
            if in_range(sorted@, a1 as int, b1 as int, id) {
                let i = choose|i: int| a1 <= i < b1 && #[trigger] sorted@[i].id@ == id;
                assert(cond_holds(sorted@[i].value@, cond, value@));
            }
            if in_range(sorted@, a2 as int, b2 as int, id) {
                let i = choose|i: int| a2 <= i < b2 && #[trigger] sorted@[i].id@ == id;
                assert(cond_holds(sorted@[i].value@, cond, value@));
            }
            if selects(sorted@, cond, value@, id) {
                let i = choose|i: int| 0 <= i < sorted@.len() && #[trigger] sorted@[i].id@ == id && cond_holds(
                    sorted@[i].value@,
                    cond,
                    value@,
                );
                if a1 <= i < b1 {
                    assert(in_range(sorted@, a1 as int, b1 as int, id));
                } else {
                    assert(in_range(sorted@, a2 as int, b2 as int, id));
                }
            }
        }
    }
    out
}

} // verus!
