use crate::index::{key_in, value_of, Field};
use vstd::prelude::*;

verus! {

/// `fields` has a field named `key`.
pub open spec fn has_key<V>(fields: Seq<Field<V>>, key: Seq<char>) -> bool {
    exists|i: int| 0 <= i < fields.len() && #[trigger] fields[i].key@ == key
}

/// A record merged from `partial` onto `base`: each key takes its value from
/// `partial` where `partial` has it, and from `base` otherwise.
pub open spec fn merged<V>(base: Seq<Field<V>>, partial: Seq<Field<V>>, key: Seq<char>) -> Option<V> {
    match value_of(partial, key) {
        Some(v) => Some(v),
        None => value_of(base, key),
    }
}

pub proof fn lemma_value_of_has_key<V>(fields: Seq<Field<V>>, key: Seq<char>)
    ensures
        value_of(fields, key) is Some <==> has_key(fields, key),
    decreases fields.len(),
{
    if fields.len() > 0 {
        lemma_value_of_has_key(fields.drop_first(), key);
        if has_key(fields, key) && fields[0].key@ != key {
            let i = choose|i: int| 0 <= i < fields.len() && #[trigger] fields[i].key@ == key;
            assert(fields.drop_first()[i - 1].key@ == key);
        }
        if has_key(fields.drop_first(), key) {
            let i = choose|i: int| 0 <= i < fields.len() - 1 && #[trigger] fields.drop_first()[i].key@ == key;
            assert(fields[i + 1].key@ == key);
        }
        if fields[0].key@ == key {
            assert(has_key(fields, key));
        }
    }
}

proof fn lemma_value_of_update<V>(fields: Seq<Field<V>>, i: int, f: Field<V>, k: Seq<char>)
    requires
        0 <= i < fields.len(),
        f.key@ == fields[i].key@,
        forall|j: int| 0 <= j < i ==> #[trigger] fields[j].key@ != f.key@,
    ensures
        value_of(fields.update(i, f), k) == if k == f.key@ {
            Some(f.value)
        } else {
            value_of(fields, k)
        },
    decreases i,
{
    if i > 0 {
        assert(fields.update(i, f).drop_first() =~= fields.drop_first().update(i - 1, f));
        assert(fields.update(i, f)[0] == fields[0]);
        assert(fields[0].key@ != f.key@);
        assert forall|j: int| 0 <= j < i - 1 implies #[trigger] fields.drop_first()[j].key@ != f.key@ by {
            assert(fields.drop_first()[j] == fields[j + 1]);
        }
        lemma_value_of_update(fields.drop_first(), i - 1, f, k);
    } else {
        assert(fields.update(i, f).drop_first() =~= fields.drop_first());
    }
}

proof fn lemma_value_of_push<V>(fields: Seq<Field<V>>, f: Field<V>, k: Seq<char>)
    ensures
        value_of(fields.push(f), k) == if value_of(fields, k) is Some {
            value_of(fields, k)
        } else if k == f.key@ {
            Some(f.value)
        } else {
            None
        },
    decreases fields.len(),
{
    if fields.len() > 0 {
        assert(fields.push(f).drop_first() =~= fields.drop_first().push(f));
        lemma_value_of_push(fields.drop_first(), f, k);
    } else {
        assert(fields.push(f).drop_first() =~= fields);
    }
}

/// Sets field `f.key` to `f.value`, in place if the key is present and
/// appended otherwise.
pub fn put_field<V>(fields: &mut Vec<Field<V>>, f: Field<V>)
    ensures
        forall|k: Seq<char>| #[trigger] value_of(final(fields)@, k) == if k == f.key@ {
            Some(f.value)
        } else {
            value_of(old(fields)@, k)
        },
{
    let ghost before = fields@;
    let mut i: usize = 0;
    let mut found = false;
    while i < fields.len() && !found
        invariant
            i <= fields.len(),
            found ==> i < fields.len() && fields@[i as int].key@ == f.key@,
            forall|j: int| 0 <= j < i ==> #[trigger] fields@[j].key@ != f.key@,
        decreases fields.len() - i + (if found { 0int } else { 1int }),
    {
        if fields[i].key == f.key {
            found = true;
        } else {
            i = i + 1;
        }
    }
    if found {
        proof {
            assert forall|k: Seq<char>| #[trigger] value_of(before.update(i as int, f), k) == if k == f.key@ {
                Some(f.value)
            } else {
                value_of(before, k)
            } by {
                lemma_value_of_update(before, i as int, f, k);
            }
        }
        fields.set(i, f);
    } else {
        proof {
            assert forall|k: Seq<char>| #[trigger] value_of(before.push(f), k) == if k == f.key@ {
                Some(f.value)
            } else {
                value_of(before, k)
            } by {
                lemma_value_of_push(before, f, k);
                if k == f.key@ && value_of(before, k) is Some {
                    lemma_value_of_has_key(before, k);
                    let j = choose|j: int| 0 <= j < before.len() && #[trigger] before[j].key@ == k;
                    assert(before[j].key@ != f.key@);
                }
            }
        }
        fields.push(f);
    }
}

/// Merges `partial` onto `base`: keys of `partial` win, keys absent from
/// `partial` keep their value from `base`.
pub fn merge_fields<V>(base: Vec<Field<V>>, partial: Vec<Field<V>>) -> (r: Vec<Field<V>>)
    ensures
        forall|k: Seq<char>| #[trigger] value_of(r@, k) == merged(base@, partial@, k),
{
    let ghost all = partial@;
    let mut out = base;
    let mut rest = partial;
    proof {
        assert(all.skip(all.len() as int) =~= Seq::<Field<V>>::empty());
    }
    while rest.len() > 0
        invariant
            rest@ == all.take(rest.len() as int),
            rest.len() <= all.len(),
            forall|k: Seq<char>| #[trigger] value_of(out@, k) == merged(base@, all.skip(rest.len() as int), k),
        decreases rest.len(),
    {
        let ghost n = rest.len() as int;
        let f = rest.pop().unwrap();
        proof {
            assert(all.skip(n - 1).drop_first() =~= all.skip(n));
            assert(all.skip(n - 1)[0] == f);
            assert(rest@ =~= all.take(n - 1));
        }
        put_field(&mut out, f);
    }
    proof {
        assert(all.skip(0) =~= all);
    }
    out
}

/// Adds the keys of `fields` to `keys`.
pub fn push_keys<V>(keys: &mut Vec<String>, fields: &Vec<Field<V>>)
    ensures
        forall|k: Seq<char>| #[trigger] key_in(final(keys)@, k) <==> key_in(old(keys)@, k) || has_key(fields@, k),
{
    let ghost before = keys@;
    let mut i: usize = 0;
    while i < fields.len()
        invariant
            i <= fields.len(),
            keys@.len() == before.len() + i,
            keys@.take(before.len() as int) == before,
            forall|j: int| 0 <= j < i ==> #[trigger] keys@[before.len() + j]@ == fields@[j].key@,
        decreases fields.len() - i,
    {
        keys.push(fields[i].key.clone());
        proof {
            assert(keys@.take(before.len() as int) =~= before);
        }
        i = i + 1;
    }
    proof {
        assert forall|k: Seq<char>| #[trigger] key_in(keys@, k) <==> key_in(before, k) || has_key(fields@, k) by {
            if key_in(keys@, k) {
                let t = choose|t: int| 0 <= t < keys@.len() && #[trigger] keys@[t]@ == k;
                if t < before.len() {
                    assert(before[t] == keys@[t]);
                } else {
                    assert(keys@[before.len() + (t - before.len())]@ == fields@[t - before.len()].key@);
                }
            }
            if key_in(before, k) {
                let t = choose|t: int| 0 <= t < before.len() && #[trigger] before[t]@ == k;
                assert(keys@.take(before.len() as int)[t] == keys@[t]);
            }
            if has_key(fields@, k) {
                let j = choose|j: int| 0 <= j < fields@.len() && #[trigger] fields@[j].key@ == k;
                assert(keys@[before.len() + j]@ == k);
            }
        }
    }
}

/// The keys of `fields`.
pub fn keys_of<V>(fields: &Vec<Field<V>>) -> (r: Vec<String>)
    ensures
        forall|k: Seq<char>| #[trigger] key_in(r@, k) <==> has_key(fields@, k),
{
    let mut keys: Vec<String> = Vec::new();
    push_keys(&mut keys, fields);
    keys
}

} // verus!
