use crate::index::{doc_ids_unique, key_in, refreshed, Field, IdRecord, StoreIndex};
use crate::record::{has_key, keys_of, merge_fields, merged, push_keys};
use vstd::prelude::*;

verus! {

/// `a` and `b` joined by a path separator.
pub open spec fn join(a: Seq<char>, b: Seq<char>) -> Seq<char> {
    a + seq!['/'] + b
}

/// The document id that a file of a collection's directory stands for: its
/// name without the `.json` extension, for files that have it.
pub open spec fn doc_id_of(file: Seq<char>) -> Option<Seq<char>> {
    if file.len() > 5 && file.skip(file.len() - 5) == seq!['.', 'j', 's', 'o', 'n'] {
        Some(file.take(file.len() - 5))
    } else {
        None
    }
}

/// `docs` holds a document with id `id`.
pub open spec fn lists(docs: Seq<IdDocument>, id: Seq<char>) -> bool {
    exists|t: int| 0 <= t < docs.len() && #[trigger] docs[t].id@ == id
}

/// The ids of `docs`, in order.
pub open spec fn ids_of(docs: Seq<IdDocument>) -> Seq<Seq<char>> {
    docs.map_values(|d: IdDocument| d.id@)
}

/// The ids that the `.json` files among `files` stand for, in order.
pub open spec fn json_ids(files: Seq<String>) -> Seq<Seq<char>>
    decreases files.len(),
{
    if files.len() == 0 {
        Seq::empty()
    } else {
        match doc_id_of(files.last()@) {
            Some(id) => json_ids(files.drop_last()).push(id),
            None => json_ids(files.drop_last()),
        }
    }
}

/// A character of a generated document id.
pub open spec fn is_id_char(c: char) -> bool {
    ('0' <= c && c <= '9') || ('a' <= c && c <= 'f') || c == '-'
}

/// Relies on `uuid::Uuid::new_v4` and the `Display` of `Uuid`: a random
/// version-4 UUID written in hyphenated form, 36 characters of lowercase hex
/// digits with `-` at positions 8, 13, 18 and 23, and the version digit `4`
/// at position 14.
#[verifier::external_body]
fn fresh_id() -> (r: String)
    ensures
        r@.len() == 36,
        r@[14] == '4',
        forall|i: int| 0 <= i < 36 ==> #[trigger] is_id_char(r@[i]),
        forall|i: int| 0 <= i < 36 ==> (#[trigger] r@[i] == '-' <==> (i == 8 || i == 13 || i == 18 || i == 23)),
{
    uuid::Uuid::new_v4().to_string()
}

/// `a` and `b` joined by a path separator.
pub fn join_path(a: &str, b: &str) -> (r: String)
    ensures
        r@ == join(a@, b@),
{
    let mut s = String::from_str(a);
    let sep = "/";
    proof {
        reveal_strlit("/");
    }
    s.append(sep);
    s.append(b);
    s
}

/// The store: a root directory holding `index.json`, a `version` marker and
/// one directory per collection.
#[derive(Clone, Debug, PartialEq, Eq)]
pub struct Db {
    pub base: String,
}

/// A collection: a directory of documents under the store root. `path` is its
/// path relative to the root, which also keys it in the index; `exist` says
/// whether the directory was present when the handle was made.
#[derive(Clone, Debug, PartialEq, Eq)]
pub struct Collection {
    pub path: String,
    pub name: String,
    pub db: Db,
    pub exist: bool,
}

/// A document of a collection, stored as `<collection>/<name>.json`; `exist`
/// says whether the file was present when the handle was made.
#[derive(Clone, Debug, PartialEq, Eq)]
pub struct Document {
    pub name: String,
    pub collection: Collection,
    pub exist: bool,
}

/// A document together with its id.
#[derive(Clone, Debug, PartialEq, Eq)]
pub struct IdDocument {
    pub id: String,
    pub doc: Document,
}

/// The handle on the system's store, at `/var/lib/lulu/db`. Creating it on
/// first use is the caller's part.
pub fn open_db() -> (r: Db)
    ensures
        r.base@ == seq!['/', 'v', 'a', 'r', '/', 'l', 'i', 'b', '/', 'l', 'u', 'l', 'u', '/', 'd', 'b'],
{
    let base = "/var/lib/lulu/db";
    proof {
        reveal_strlit("/var/lib/lulu/db");
        assert(base@ =~= seq!['/', 'v', 'a', 'r', '/', 'l', 'i', 'b', '/', 'l', 'u', 'l', 'u', '/', 'd', 'b']);
    }
    Db::new(String::from_str(base))
}

impl Db {
    /// The store's index file, `<base>/index.json`.
    pub fn index_path(&self) -> (r: String)
        ensures
            r@ == join(self.base@, seq!['i', 'n', 'd', 'e', 'x', '.', 'j', 's', 'o', 'n']),
    {
        let name = "index.json";
        proof {
            reveal_strlit("index.json");
            assert(name@ =~= seq!['i', 'n', 'd', 'e', 'x', '.', 'j', 's', 'o', 'n']);
        }
        join_path(self.base.as_str(), name)
    }

    /// The store's version marker, `<base>/version`.
    pub fn version_path(&self) -> (r: String)
        ensures
            r@ == join(self.base@, seq!['v', 'e', 'r', 's', 'i', 'o', 'n']),
    {
        let name = "version";
        proof {
            reveal_strlit("version");
            assert(name@ =~= seq!['v', 'e', 'r', 's', 'i', 'o', 'n']);
        }
        join_path(self.base.as_str(), name)
    }

    /// The marker whose presence means the store is locked, `<base>/lock`.
    pub fn lock_path(&self) -> (r: String)
        ensures
            r@ == join(self.base@, seq!['l', 'o', 'c', 'k']),
    {
        let name = "lock";
        proof {
            reveal_strlit("lock");
            assert(name@ =~= seq!['l', 'o', 'c', 'k']);
        }
        join_path(self.base.as_str(), name)
    }

    /// A handle on the store rooted at `base`. Creating the directory and its
    /// `index.json` and `version` files is the caller's part.
    pub fn new(base: String) -> (r: Db)
        ensures
            r.base@ == base@,
    {
        Db { base }
    }

    /// The collection `name` at the top of the store; `exist` tells whether
    /// its directory is present.
    pub fn collection(self, name: &str, exist: bool) -> (r: Collection)
        ensures
            r.path@ == name@,
            r.name@ == name@,
            r.db == self,
            r.exist == exist,
    {
        Collection::new(self, name, exist)
    }
}

impl Collection {
    /// The collection `name` at the top of the store of `db`.
    pub fn new(db: Db, name: &str, exist: bool) -> (r: Collection)
        ensures
            r.path@ == name@,
            r.name@ == name@,
            r.db == db,
            r.exist == exist,
    {
        Collection { path: name.to_owned(), name: name.to_owned(), db, exist }
    }

    /// The collection `name` nested under the relative path `base`.
    pub fn new_from(db: Db, name: &str, base: &str, exist: bool) -> (r: Collection)
        ensures
            r.path@ == join(base@, name@),
            r.name@ == name@,
            r.db == db,
            r.exist == exist,
    {
        Collection { path: join_path(base, name), name: name.to_owned(), db, exist }
    }

    /// The document `name` of this collection; `exist` tells whether its file
    /// is present.
    pub fn doc(self, name: &str, exist: bool) -> (r: Document)
        ensures
            r.name@ == name@,
            r.collection == self,
            r.exist == exist,
    {
        Document::new(name, self, exist)
    }

    /// A handle on a new document of this collection under a freshly
    /// generated id. Creating the directory and writing the document is the
    /// caller's part.
    pub fn add(&self) -> (r: Document)
        ensures
            r.collection == *self,
            !r.exist,
            r.name@.len() == 36,
            r.name@[14] == '4',
            forall|i: int| 0 <= i < 36 ==> #[trigger] is_id_char(r.name@[i]),
    {
        let id = fresh_id();
        Document { name: id, collection: self.copy(), exist: false }
    }

    /// The documents of this collection, given the names of the files in its
    /// directory: one for each `.json` file, in the order given; none when the
    /// collection does not exist.
    pub fn get(&self, files: &Vec<String>) -> (r: Vec<IdDocument>)
        ensures
            !self.exist ==> r@.len() == 0,
            self.exist ==> ids_of(r@) == json_ids(files@),
            forall|t: int| 0 <= t < r@.len() ==> {
                &&& (#[trigger] r@[t]).doc.name@ == r@[t].id@
                &&& r@[t].doc.collection == *self
                &&& r@[t].doc.exist
            },
    {
        let mut out: Vec<IdDocument> = Vec::new();
        if !self.exist {
            return out;
        }
        let mut i: usize = 0;
        proof {
            assert(files@.take(0) =~= Seq::<String>::empty());
            assert(ids_of(out@) =~= Seq::<Seq<char>>::empty());
        }
        while i < files.len()
            invariant
                i <= files.len(),
                self.exist,
                ids_of(out@) == json_ids(files@.take(i as int)),
                forall|t: int| 0 <= t < out@.len() ==> {
                    &&& (#[trigger] out@[t]).doc.name@ == out@[t].id@
                    &&& out@[t].doc.collection == *self
                    &&& out@[t].doc.exist
                },
            decreases files.len() - i,
        {
            let ghost before = out@;
            proof {
                assert(files@.take(i + 1).drop_last() =~= files@.take(i as int));
                assert(files@.take(i + 1).last() == files@[i as int]);
            }
            match doc_id(&files[i]) {
                Some(id) => {
                    let d = IdDocument::new(id.clone(), Document::new(id.as_str(), self.copy(), true));
                    out.push(d);
                    proof {
                        assert(ids_of(out@) =~= ids_of(before).push(id@));
                        assert forall|t: int| 0 <= t < out@.len() implies {
                            &&& (#[trigger] out@[t]).doc.name@ == out@[t].id@
                            &&& out@[t].doc.collection == *self
                            &&& out@[t].doc.exist
                        } by {
                            if t < before.len() {
                                assert(before[t] == out@[t]);
                            }
                        }
                    }
                },
                None => {},
            }
            i = i + 1;
        }
        proof {
            assert(files@.take(i as int) =~= files@);
        }
        out
    }

    /// Rebuilds the index entries of the fields `keys` of this collection from
    /// its current documents `docs`; every other field keeps its entries.
    pub fn index(&self, index: &mut StoreIndex, keys: &Vec<String>, docs: &Vec<IdRecord>)
        requires
            old(index).wf(),
            doc_ids_unique(docs@),
        ensures
            final(index).wf(),
            refreshed(old(index).fields@, final(index).fields@, self.path@, keys@, docs@),
    {
        index.refresh(&self.path, keys, docs);
    }

    /// A copy of this handle.
    pub fn copy(&self) -> (r: Collection)
        ensures
            r == *self,
    {
        Collection {
            path: self.path.clone(),
            name: self.name.clone(),
            db: Db { base: self.db.base.clone() },
            exist: self.exist,
        }
    }

    /// The collection's directory: its path under the store root.
    pub fn full_path(&self) -> (r: String)
        ensures
            r@ == join(self.db.base@, self.path@),
    {
        join_path(self.db.base.as_str(), self.path.as_str())
    }
}

/// The id that file name `file` stands for, if it is a `.json` file.
fn doc_id(file: &String) -> (r: Option<String>)
    ensures
        match r {
            Some(id) => doc_id_of(file@) == Some(id@),
            None => doc_id_of(file@) is None,
        },
{
    let s = file.as_str();
    let n = s.unicode_len();
    if n <= 5 {
        return None;
    }
    let ghost ext = seq!['.', 'j', 's', 'o', 'n'];
    let a = s.get_char(n - 5);
    let b = s.get_char(n - 4);
    let c = s.get_char(n - 3);
    let d = s.get_char(n - 2);
    let e = s.get_char(n - 1);
    if a == '.' && b == 'j' && c == 's' && d == 'o' && e == 'n' {
        proof {
            assert(file@.skip(n - 5) =~= ext);
        }
        Some(s.substring_char(0, n - 5).to_owned())
    } else {
        proof {
            if file@.skip(n - 5) == ext {
                assert(file@.skip(n - 5)[0] == a);
                assert(file@.skip(n - 5)[1] == b);
                assert(file@.skip(n - 5)[2] == c);
                assert(file@.skip(n - 5)[3] == d);
                assert(file@.skip(n - 5)[4] == e);
            }
        }
        None
    }
}

impl IdDocument {
    pub fn new(id: String, doc: Document) -> (r: IdDocument)
        ensures
            r.id == id,
            r.doc == doc,
    {
        IdDocument { id, doc }
    }
}

impl Document {
    /// The document `name` of `collection`.
    pub fn new(name: &str, collection: Collection, exist: bool) -> (r: Document)
        ensures
            r.name@ == name@,
            r.collection == collection,
            r.exist == exist,
    {
        Document { name: name.to_owned(), collection, exist }
    }

    /// The document's file: `<collection directory>/<name>.json`.
    pub fn file_path(&self) -> (r: String)
        ensures
            r@ == join(join(self.collection.db.base@, self.collection.path@), self.name@) + seq![
                '.',
                'j',
                's',
                'o',
                'n',
            ],
    {
        let dir = self.collection.full_path();
        let mut p = join_path(dir.as_str(), self.name.as_str());
        let ext = ".json";
        proof {
            reveal_strlit(".json");
        }
        p.append(ext);
        p
    }

    /// The collection `name` nested under this document: its path is the
    /// document's own path without the extension.
    pub fn collection(self, name: &str, exist: bool) -> (r: Collection)
        ensures
            r.path@ == join(join(self.collection.path@, self.name@), name@),
            r.name@ == name@,
            r.db == self.collection.db,
            r.exist == exist,
    {
        let base = join_path(self.collection.path.as_str(), self.name.as_str());
        Collection::new_from(self.collection.db, name, base.as_str(), exist)
    }

    /// Records that `record` was written over `previous` (the document's former
    /// content, if it existed) and returns the fields whose index entries must
    /// be rebuilt: those of the new record and those of the old one, so that no
    /// entry survives for a field the document no longer has.
    pub fn set<V>(&mut self, record: &Vec<Field<V>>, previous: &Option<Vec<Field<V>>>) -> (keys: Vec<String>)
        ensures
            final(self).exist,
            final(self).name == old(self).name,
            final(self).collection == old(self).collection,
            forall|k: Seq<char>| #[trigger] key_in(keys@, k) <==> has_key(record@, k) || match previous {
                Some(p) => has_key(p@, k),
                None => false,
            },
    {
        let mut keys = keys_of(record);
        match previous {
            Some(p) => push_keys(&mut keys, p),
            None => {},
        }
        self.exist = true;
        keys
    }

    /// Merges `partial` onto the stored content `stored`. Nothing happens to a
    /// document that does not exist (`None`); otherwise returns the merged
    /// record to write and the fields whose index entries must be rebuilt:
    /// those of `partial`, the only ones whose values change.
    pub fn update<V>(&self, stored: Vec<Field<V>>, partial: Vec<Field<V>>) -> (r: Option<(Vec<Field<V>>, Vec<String>)>)
        ensures
            !self.exist <==> r is None,
            match r {
                Some((m, keys)) => {
                    &&& forall|k: Seq<char>| #[trigger] crate::index::value_of(m@, k) == merged(stored@, partial@, k)
                    &&& forall|k: Seq<char>| #[trigger] key_in(keys@, k) <==> has_key(partial@, k)
                },
                None => true,
            },
    {
        if !self.exist {
            return None;
        }
        let keys = keys_of(&partial);
        let m = merge_fields(stored, partial);
        Some((m, keys))
    }

    /// Records that the document's file was removed; `stored` is its content
    /// before removal, if it existed. Returns the fields whose index entries
    /// must be rebuilt: those of the removed content, none if there was none.
    pub fn delete<V>(&mut self, stored: &Option<Vec<Field<V>>>) -> (keys: Vec<String>)
        ensures
            !final(self).exist,
            final(self).name == old(self).name,
            final(self).collection == old(self).collection,
            forall|k: Seq<char>| #[trigger] key_in(keys@, k) <==> match stored {
                Some(p) => has_key(p@, k),
                None => false,
            },
    {
        self.exist = false;
        match stored {
            Some(p) => keys_of(p),
            None => Vec::new(),
        }
    }
}

} // verus!
