use lulu::db::{open_db, Collection, Db, IdDocument};
use lulu::index::{build_entries, record_value, Entry, Field, IdRecord, Record, StoreIndex};
use lulu::query::Where;
use lulu::record::{keys_of, merge_fields};
use lulu::scalar::{value_cmp, value_cond, Condition, Scalar};
use std::cmp::Ordering;

fn num(x: f64) -> Scalar {
    Scalar::Number(x.to_bits())
}

fn text(s: &str) -> Scalar {
    Scalar::Text(s.to_string())
}

fn field(key: &str, value: Option<Scalar>) -> Field<Option<Scalar>> {
    Field { key: key.to_string(), value }
}

fn record(id: &str, fields: Record) -> IdRecord {
    IdRecord { id: id.to_string(), fields }
}

fn entry(value: Scalar, id: &str) -> Entry {
    Entry { value, id: id.to_string() }
}

fn ids(docs: &[IdDocument]) -> Vec<String> {
    let mut v: Vec<String> = docs.iter().map(|d| d.id.clone()).collect();
    v.sort();
    v
}

fn store() -> Db {
    Db::new("/store".to_string())
}

fn refresh_all(index: &mut StoreIndex, coll: &Collection, docs: &Vec<IdRecord>, keys: &[&str]) {
    let keys: Vec<String> = keys.iter().map(|k| k.to_string()).collect();
    index.refresh(&coll.path, &keys, docs);
}

fn query(index: &StoreIndex, coll: &Collection, key: &str, cond: Condition, value: Scalar) -> Vec<String> {
    ids(&coll.copy().wherr(index, key.to_string(), cond, value).get())
}

#[test]
fn test_get_greater() {
    let mut v = Vec::new();
    v.push(entry(num(1.0), "a"));
    v.push(entry(num(2.0), "b"));
    v.push(entry(num(3.0), "c"));
    v.push(entry(num(3.0), "d"));
    v.push(entry(num(3.0), "e"));
    v.push(entry(num(4.0), "f"));
    v.push(entry(num(7.0), "g"));
    v.push(entry(num(8.0), "h"));
    v.push(entry(num(9.0), "i"));
    v.push(entry(num(9.0), "j"));

    let bounds = Where::get_greater(&v, &num(3.0), false);
    println!("{:?}", bounds);
    assert_eq!(bounds, (0, 5));

    let bounds = Where::get_less(&v, &num(3.0), false);
    println!("{:?}", bounds);
    assert_eq!(bounds, (2, 8));

    let bounds = Where::get_equal(&v, &num(3.0));
    println!("{:?}", bounds);
    assert_eq!(bounds, (2, 3));
}

#[test]
fn bisection_strict_bounds() {
    let v = vec![entry(num(1.0), "a"), entry(num(3.0), "b"), entry(num(3.0), "c"), entry(num(5.0), "d")];
    assert_eq!(Where::get_greater(&v, &num(3.0), true), (0, 1));
    assert_eq!(Where::get_less(&v, &num(3.0), true), (3, 1));
    assert_eq!(Where::get_equal(&v, &num(4.0)), (3, 0));
    assert_eq!(Where::get_equal(&v, &num(0.0)), (0, 0));
    assert_eq!(Where::get_equal(&v, &num(9.0)), (4, 0));
    let empty: Vec<Entry> = Vec::new();
    assert_eq!(Where::get_greater(&empty, &num(3.0), true), (0, 0));
    assert_eq!(Where::get_less(&empty, &num(3.0), false), (0, 0));
    assert_eq!(Where::get_equal(&empty, &num(3.0)), (0, 0));
}

#[test]
fn numbers_follow_total_order() {
    assert_eq!(value_cmp(&num(1.0), &num(2.0)), Ordering::Less);
    assert_eq!(value_cmp(&num(-1.0), &num(-2.0)), Ordering::Greater);
    assert_eq!(value_cmp(&num(-0.0), &num(0.0)), Ordering::Less);
    assert_eq!(value_cmp(&num(-3.5), &num(2.0)), Ordering::Less);
    assert_eq!(value_cmp(&num(2.0), &num(2.0)), Ordering::Equal);
    assert_eq!(value_cmp(&num(f64::NAN), &num(f64::INFINITY)), Ordering::Greater);
    assert_eq!(value_cmp(&num(f64::NEG_INFINITY), &num(-1e300)), Ordering::Less);
}

#[test]
fn texts_and_bools_order() {
    assert_eq!(value_cmp(&text("abc"), &text("abd")), Ordering::Less);
    assert_eq!(value_cmp(&text("ab"), &text("abc")), Ordering::Less);
    assert_eq!(value_cmp(&text("b"), &text("abc")), Ordering::Greater);
    assert_eq!(value_cmp(&text("é"), &text("z")), Ordering::Greater);
    assert_eq!(value_cmp(&text(""), &text("")), Ordering::Equal);
    assert_eq!(value_cmp(&Scalar::Bool(false), &Scalar::Bool(true)), Ordering::Less);
    assert_eq!(value_cmp(&Scalar::Bool(true), &Scalar::Bool(true)), Ordering::Equal);
}

#[test]
fn kinds_never_compare_equal() {
    assert_eq!(value_cmp(&Scalar::Bool(true), &num(0.0)), Ordering::Less);
    assert_eq!(value_cmp(&num(1.0), &text("1")), Ordering::Less);
    assert_eq!(value_cmp(&text("1"), &Scalar::Bool(false)), Ordering::Greater);
    assert!(!value_cond(&num(1.0), Condition::Equal, &text("1")));
    assert!(value_cond(&num(1.0), Condition::NotEqual, &text("1")));
}

#[test]
fn conditions_against_a_value() {
    let two = num(2.0);
    assert!(value_cond(&num(2.0), Condition::Equal, &two));
    assert!(!value_cond(&num(2.0), Condition::NotEqual, &two));
    assert!(value_cond(&num(3.0), Condition::Greater, &two));
    assert!(!value_cond(&num(2.0), Condition::Greater, &two));
    assert!(value_cond(&num(1.0), Condition::Less, &two));
    assert!(value_cond(&num(2.0), Condition::GreaterOrEqual, &two));
    assert!(!value_cond(&num(1.0), Condition::GreaterOrEqual, &two));
    assert!(value_cond(&num(2.0), Condition::LessOrEqual, &two));
    assert!(!value_cond(&num(3.0), Condition::LessOrEqual, &two));
}

fn pkgs() -> (Collection, Vec<IdRecord>, StoreIndex) {
    let coll = store().collection("pkgs", true);
    let docs = vec![
        record("a", vec![field("ver", Some(num(1.0)))]),
        record("b", vec![field("ver", Some(num(2.0)))]),
        record("c", vec![field("ver", Some(num(2.0)))]),
    ];
    let mut index = StoreIndex::new();
    refresh_all(&mut index, &coll, &docs, &["ver"]);
    (coll, docs, index)
}

#[test]
fn example_scenario_pkgs() {
    let (coll, mut docs, mut index) = pkgs();
    assert_eq!(query(&index, &coll, "ver", Condition::Equal, num(2.0)), vec!["b", "c"]);
    assert_eq!(query(&index, &coll, "ver", Condition::Less, num(2.0)), vec!["a"]);

    let mut doc = coll.copy().doc("b", true);
    let stored = Some(docs[1].fields.clone());
    let keys = doc.delete(&stored);
    assert!(!doc.exist);
    assert_eq!(keys, vec!["ver".to_string()]);
    docs.remove(1);
    index.refresh(&coll.path, &keys, &docs);
    assert_eq!(query(&index, &coll, "ver", Condition::Equal, num(2.0)), vec!["c"]);
}

#[test]
fn ordering_queries_partition() {
    let coll = store().collection("pkgs", true);
    let docs = vec![
        record("a", vec![field("n", Some(num(5.0)))]),
        record("b", vec![field("n", Some(num(1.0)))]),
        record("c", vec![field("n", Some(num(3.0)))]),
        record("d", vec![field("n", Some(num(3.0)))]),
        record("e", vec![field("n", Some(num(9.0)))]),
        record("f", vec![field("other", Some(num(3.0)))]),
    ];
    let mut index = StoreIndex::new();
    refresh_all(&mut index, &coll, &docs, &["n"]);
    assert!(index.is_well_formed());
    assert_eq!(query(&index, &coll, "n", Condition::Less, num(3.0)), vec!["b"]);
    assert_eq!(query(&index, &coll, "n", Condition::GreaterOrEqual, num(3.0)), vec!["a", "c", "d", "e"]);
    assert_eq!(query(&index, &coll, "n", Condition::Equal, num(3.0)), vec!["c", "d"]);
    assert_eq!(query(&index, &coll, "n", Condition::NotEqual, num(3.0)), vec!["a", "b", "e"]);
    assert_eq!(query(&index, &coll, "n", Condition::Greater, num(3.0)), vec!["a", "e"]);
    assert_eq!(query(&index, &coll, "n", Condition::LessOrEqual, num(3.0)), vec!["b", "c", "d"]);
    assert_eq!(query(&index, &coll, "n", Condition::Greater, num(9.0)), Vec::<String>::new());
    assert_eq!(query(&index, &coll, "n", Condition::LessOrEqual, num(9.0)), vec!["a", "b", "c", "d", "e"]);
}

#[test]
fn chained_predicates_intersect_in_any_order() {
    let coll = store().collection("pkgs", true);
    let docs = vec![
        record("a", vec![field("ver", Some(num(1.0))), field("repo", Some(text("main")))]),
        record("b", vec![field("ver", Some(num(2.0))), field("repo", Some(text("main")))]),
        record("c", vec![field("ver", Some(num(2.0))), field("repo", Some(text("extra")))]),
    ];
    let mut index = StoreIndex::new();
    refresh_all(&mut index, &coll, &docs, &["ver", "repo"]);
    let one = coll
        .copy()
        .wherr(&index, "ver".to_string(), Condition::Equal, num(2.0))
        .wherr(&index, "repo".to_string(), Condition::Equal, text("main"))
        .get();
    let other = Where::new(coll.copy(), &index, "repo".to_string(), Condition::Equal, text("main"))
        .wherr(&index, "ver".to_string(), Condition::Equal, num(2.0))
        .get();
    assert_eq!(ids(&one), vec!["b"]);
    assert_eq!(ids(&other), vec!["b"]);
    assert_eq!(one[0].doc.name, "b");
    assert!(one[0].doc.exist);
}

#[test]
fn missing_collection_or_field_gives_empty_result() {
    let (coll, _docs, index) = pkgs();
    let missing = store().collection("nothing", false);
    assert!(missing.copy().wherr(&index, "ver".to_string(), Condition::Equal, num(2.0)).get().is_empty());
    assert!(missing.get(&vec!["a.json".to_string()]).is_empty());
    assert!(query(&index, &coll, "never", Condition::NotEqual, num(2.0)).is_empty());
}

#[test]
fn set_drops_entries_of_fields_the_record_lost() {
    let (coll, mut docs, mut index) = pkgs();
    let mut doc = coll.copy().doc("b", true);
    let previous = Some(docs[1].fields.clone());
    let new_fields: Record = vec![field("name", Some(text("bee")))];
    let keys = doc.set(&new_fields, &previous);
    assert!(doc.exist);
    let mut sorted = keys.clone();
    sorted.sort();
    assert_eq!(sorted, vec!["name".to_string(), "ver".to_string()]);
    docs[1] = record("b", new_fields);
    index.refresh(&coll.path, &keys, &docs);
    assert_eq!(query(&index, &coll, "ver", Condition::Equal, num(2.0)), vec!["c"]);
    assert_eq!(query(&index, &coll, "name", Condition::Equal, text("bee")), vec!["b"]);
}

#[test]
fn update_merges_and_rebuilds_partial_keys() {
    let (coll, mut docs, mut index) = pkgs();
    let doc = coll.copy().doc("a", true);
    let stored: Record = vec![field("ver", Some(num(1.0))), field("tag", Some(text("x")))];
    let partial: Record = vec![field("ver", Some(num(7.0)))];
    let (merged, keys) = doc.update(stored, partial).unwrap();
    assert_eq!(keys, vec!["ver".to_string()]);
    assert_eq!(record_value(&merged, &"ver".to_string()), Some(num(7.0)));
    assert_eq!(record_value(&merged, &"tag".to_string()), Some(text("x")));
    docs[0] = record("a", merged);
    index.refresh(&coll.path, &keys, &docs);
    assert_eq!(query(&index, &coll, "ver", Condition::Greater, num(2.0)), vec!["a"]);

    let absent = coll.copy().doc("zzz", false);
    assert!(absent.update(Vec::<Field<u8>>::new(), vec![Field { key: "k".to_string(), value: 1u8 }]).is_none());
}

#[test]
fn merge_keeps_base_keys_and_prefers_partial() {
    let base = vec![Field { key: "a".to_string(), value: 1 }, Field { key: "b".to_string(), value: 2 }];
    let partial = vec![Field { key: "b".to_string(), value: 20 }, Field { key: "c".to_string(), value: 30 }];
    let mut m: Vec<(String, i32)> = merge_fields(base, partial).into_iter().map(|f| (f.key, f.value)).collect();
    m.sort();
    assert_eq!(m, vec![("a".to_string(), 1), ("b".to_string(), 20), ("c".to_string(), 30)]);
}

#[test]
fn non_scalar_fields_are_not_indexed() {
    let docs = vec![
        record("a", vec![field("x", None)]),
        record("b", vec![field("x", Some(text("q")))]),
        record("c", vec![field("y", Some(text("q")))]),
    ];
    let es = build_entries(&"x".to_string(), &docs);
    assert_eq!(es, vec![entry(text("q"), "b")]);
    let none = build_entries(&"z".to_string(), &docs);
    assert!(none.is_empty());
}

#[test]
fn build_sorts_with_duplicates() {
    let docs = vec![
        record("a", vec![field("n", Some(num(3.0)))]),
        record("b", vec![field("n", Some(num(-1.0)))]),
        record("c", vec![field("n", Some(num(3.0)))]),
        record("d", vec![field("n", Some(num(0.5)))]),
    ];
    let es = build_entries(&"n".to_string(), &docs);
    let values: Vec<f64> = es
        .iter()
        .map(|e| match e.value {
            Scalar::Number(b) => f64::from_bits(b),
            _ => panic!("not a number"),
        })
        .collect();
    assert_eq!(values, vec![-1.0, 0.5, 3.0, 3.0]);
    assert_eq!(es[0].id, "b");
    assert_eq!(es[1].id, "d");
}

#[test]
fn unsorted_index_is_rejected() {
    let mut index = StoreIndex::new();
    assert!(index.is_well_formed());
    index.fields.push(lulu::index::FieldIndex {
        collection: "pkgs".to_string(),
        key: "n".to_string(),
        entries: vec![entry(num(2.0), "a"), entry(num(1.0), "b")],
    });
    assert!(!index.is_well_formed());
}

#[test]
fn index_replaces_field_entries() {
    let mut index = StoreIndex::new();
    let p = "pkgs".to_string();
    let k = "n".to_string();
    index.set_entries(&p, &k, vec![entry(num(1.0), "a")]);
    index.set_entries(&p, &k, vec![entry(num(2.0), "b")]);
    assert_eq!(index.fields.len(), 1);
    assert_eq!(index.entries(&p, &k), Some(&vec![entry(num(2.0), "b")]));
    assert_eq!(index.entries(&p, &"m".to_string()), None);
}

#[test]
fn collection_lists_json_files_only() {
    let coll = store().collection("pkgs", true);
    let files = vec!["a.json".to_string(), "sub".to_string(), ".json".to_string(), "b.json".to_string(), "c.txt".to_string()];
    let docs = coll.get(&files);
    assert_eq!(ids(&docs), vec!["a", "b"]);
    assert!(docs.iter().all(|d| d.doc.exist && d.doc.name == d.id));
}

#[test]
fn paths_of_handles() {
    let db = store();
    assert_eq!(db.index_path(), "/store/index.json");
    assert_eq!(db.version_path(), "/store/version");
    assert_eq!(db.lock_path(), "/store/lock");
    let coll = db.collection("packages", false);
    assert_eq!(coll.full_path(), "/store/packages");
    let doc = coll.doc("foo", true);
    assert_eq!(doc.file_path(), "/store/packages/foo.json");
    let nested = doc.collection("versions", false);
    assert_eq!(nested.path, "packages/foo/versions");
    assert_eq!(nested.name, "versions");
    assert_eq!(nested.full_path(), "/store/packages/foo/versions");
    let direct = Collection::new_from(store(), "v", "x/y", true);
    assert_eq!(direct.path, "x/y/v");
    assert_eq!(open_db().base, "/var/lib/lulu/db");
}

#[test]
fn added_documents_get_fresh_ids() {
    let coll = store().collection("pkgs", false);
    let a = coll.add();
    let b = coll.add();
    assert_eq!(a.name.len(), 36);
    assert_eq!(a.name.chars().nth(14), Some('4'));
    assert!(!a.exist);
    assert_ne!(a.name, b.name);
    for (i, c) in a.name.chars().enumerate() {
        if i == 8 || i == 13 || i == 18 || i == 23 {
            assert_eq!(c, '-');
        } else {
            assert!(c.is_ascii_hexdigit() && !c.is_ascii_uppercase());
        }
    }
}

#[test]
fn keys_of_a_record() {
    let r: Record = vec![field("a", None), field("b", Some(num(1.0)))];
    assert_eq!(keys_of(&r), vec!["a".to_string(), "b".to_string()]);
}

#[test]
fn collection_lists_each_json_file_once_in_order() {
    let coll = store().collection("pkgs", true);
    let files = vec!["b.json".to_string(), "x".to_string(), "v1.2.json".to_string(), "a.json".to_string()];
    let got: Vec<String> = coll.get(&files).iter().map(|d| d.id.clone()).collect();
    assert_eq!(got, vec!["b", "v1.2", "a"]);
}

#[test]
fn chaining_never_repeats_an_id() {
    let (coll, _docs, index) = pkgs();
    let doc = |id: &str| IdDocument { id: id.to_string(), doc: coll.copy().doc(id, true) };
    let w = Where { collection: coll.copy(), result: vec![doc("b"), doc("b"), doc("a"), doc("c")] };
    let got: Vec<String> = w
        .wherr(&index, "ver".to_string(), Condition::Equal, num(2.0))
        .get()
        .iter()
        .map(|d| d.id.clone())
        .collect();
    assert_eq!(got, vec!["b", "c"]);
}

#[test]
fn repeated_index_id_is_rejected() {
    let mut index = StoreIndex::new();
    index.fields.push(lulu::index::FieldIndex {
        collection: "pkgs".to_string(),
        key: "n".to_string(),
        entries: vec![entry(num(1.0), "a"), entry(num(2.0), "a")],
    });
    assert!(!index.is_well_formed());
}

#[test]
fn query_results_are_distinct() {
    let (coll, _docs, index) = pkgs();
    for cond in [Condition::Equal, Condition::NotEqual, Condition::Less, Condition::Greater, Condition::LessOrEqual, Condition::GreaterOrEqual] {
        let r = coll.copy().wherr(&index, "ver".to_string(), cond, num(2.0)).get();
        let mut ids: Vec<String> = r.iter().map(|d| d.id.clone()).collect();
        let n = ids.len();
        ids.sort();
        ids.dedup();
        assert_eq!(ids.len(), n);
    }
}
