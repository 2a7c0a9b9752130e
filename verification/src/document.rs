//! Documents, collections and the in-memory database.

use vstd::prelude::*;
use vstd::string::StringExecFns;

use crate::clock::now_millis;
use crate::key_map::{
    entries_map, entries_sorted, lemma_entries_map_index, lemma_entries_map_insert, KeyMap,
};
use crate::keys::key_lt;
use crate::number::{f64_bits_from_u64, f64_is_count, f64_is_nan, f64_negative};
use crate::value::{copy_fields, fields_view, Json, Value};

verus! {

/// A document: its fields mapped to their values.
pub type DocModel = Map<Seq<char>, Json>;

/// A collection: document ids mapped to documents.
pub type CollectionModel = Map<Seq<char>, DocModel>;

/// A database: collection names mapped to collections.
pub type DatabaseModel = Map<Seq<char>, CollectionModel>;

/// The field that an update stamps with its time in milliseconds.
pub open spec fn updated_at_key() -> Seq<char> {
    seq!['_', 'u', 'p', 'd', 'a', 't', 'e', 'd', '_', 'a', 't']
}

/// A document of named fields.
#[derive(Debug, PartialEq)]
pub struct Document {
    pub fields: KeyMap<Value>,
}

impl View for Document {
    type V = DocModel;

    open spec fn view(&self) -> DocModel {
        fields_view(self.fields)
    }
}

impl Document {
    /// A document with the given fields.
    pub fn new(fields: KeyMap<Value>) -> (d: Self)
        ensures
            d.fields == fields,
            d@ == fields_view(fields),
    {
        Document { fields }
    }

    /// A copy of the document.
    pub fn copy(&self) -> (d: Self)
        ensures
            d@ == self@,
    {
        Document { fields: copy_fields(&self.fields) }
    }
}

impl Clone for Document {
    fn clone(&self) -> (d: Self)
        ensures
            d@ == self@,
    {
        self.copy()
    }
}

pub open spec fn documents_view(m: KeyMap<Document>) -> CollectionModel {
    m@.map_values(|d: Document| d@)
}

/// A collection of documents keyed by id.
#[derive(Debug, Clone, PartialEq)]
pub struct Collection {
    pub documents: KeyMap<Document>,
}

impl View for Collection {
    type V = CollectionModel;

    open spec fn view(&self) -> CollectionModel {
        documents_view(self.documents)
    }
}

impl Collection {
    /// An empty collection.
    pub fn new() -> (c: Self)
        ensures
            c@ == CollectionModel::empty(),
    {
        let c = Collection { documents: KeyMap::new() };
        assert(c@ =~= CollectionModel::empty());
        c
    }
}

/// The outcome of updating document `id` of a collection with `fields` at the
/// time encoded by `stamp`.
pub open spec fn collection_update_outcome(col: CollectionModel, id: Seq<char>, fields: DocModel, stamp: u64) -> Result<
    CollectionModel,
    Seq<char>,
> {
    if !col.contains_key(id) {
        Err(document_not_found(id))
    } else {
        Ok(col.insert(id, merged_document(col[id], fields, stamp)))
    }
}

impl Collection {
    /// Creates or replaces document `doc_id`.
    pub fn insert_document(&mut self, doc_id: String, document: Document)
        ensures
            final(self)@ == old(self)@.insert(doc_id@, document@),
    {
        proof {
            lemma_map_values_insert(self.documents@, doc_id@, document, |d: Document| d@);
        }
        self.documents.insert(doc_id, document);
    }

    /// Document `doc_id`, if it exists.
    pub fn get_document(&self, doc_id: &str) -> (r: Option<&Document>)
        ensures
            r is Some == self@.contains_key(doc_id@),
            r matches Some(d) ==> d@ == self@[doc_id@],
    {
        self.documents.get(doc_id)
    }

    /// Merges `fields` into document `doc_id` and stamps `_updated_at` with
    /// the binary64 encoding `stamp`.
    pub fn update_document_stamped(&mut self, doc_id: &str, fields: KeyMap<Value>, stamp: u64) -> (r: Result<(), String>)
        ensures
            match collection_update_outcome(old(self)@, doc_id@, fields_view(fields), stamp) {
                Ok(c) => r is Ok && final(self)@ == c,
                Err(msg) => r matches Err(e) && e@ == msg && final(self)@ == old(self)@,
            },
    {
        if !self.documents.contains_key(doc_id) {
            return Err(document_not_found_error(doc_id));
        }
        let ghost docs_before = self.documents@;
        let mut doc = self.documents.remove(doc_id).unwrap();
        let ghost fields_before = doc.fields@;
        merge_fields(&mut doc.fields, fields);
        let ghost merged = doc.fields@;
        let key = "_updated_at".to_owned();
        proof {
            reveal_strlit("_updated_at");
            assert(key@ =~= updated_at_key());
        }
        doc.fields.insert(key, Value::Number(stamp));
        proof {
            let f = |v: Value| v@;
            lemma_map_values_insert(merged, updated_at_key(), Value::Number(stamp), f);
            lemma_map_values_union(fields_before, fields@, f);
            let g = |d: Document| d@;
            lemma_map_values_remove(docs_before, doc_id@, g);
            lemma_map_values_insert(docs_before.remove(doc_id@), doc_id@, doc, g);
            lemma_map_values_insert(docs_before, doc_id@, doc, g);
            assert(docs_before.remove(doc_id@).insert(doc_id@, doc) =~= docs_before.insert(doc_id@, doc));
        }
        self.documents.insert(doc_id.to_owned(), doc);
        Ok(())
    }

    /// Merges `fields` into document `doc_id` and stamps `_updated_at` with the
    /// current time in milliseconds.
    pub fn update_document(&mut self, doc_id: &str, fields: KeyMap<Value>) -> (r: Result<(), String>)
        ensures
            exists|stamp: u64|
                {
                    &&& f64_is_count(stamp)
                    &&& !f64_is_nan(stamp)
                    &&& !f64_negative(stamp)
                    &&& match collection_update_outcome(old(self)@, doc_id@, fields_view(fields), stamp) {
                        Ok(c) => r is Ok && final(self)@ == c,
                        Err(msg) => r matches Err(e) && e@ == msg && final(self)@ == old(self)@,
                    }
                },
    {
        let stamp = f64_bits_from_u64(now_millis());
        self.update_document_stamped(doc_id, fields, stamp)
    }

    /// Deletes document `doc_id`.
    pub fn remove_document(&mut self, doc_id: &str) -> (r: Result<(), String>)
        ensures
            old(self)@.contains_key(doc_id@) ==> r is Ok && final(self)@ == old(self)@.remove(doc_id@),
            !old(self)@.contains_key(doc_id@) ==> (r matches Err(e) && e@ == document_not_found(doc_id@)
                && final(self)@ == old(self)@),
    {
        proof {
            lemma_map_values_remove(self.documents@, doc_id@, |d: Document| d@);
        }
        match self.documents.remove(doc_id) {
            Some(_) => Ok(()),
            None => {
                proof {
                    assert(old(self).documents@.remove(doc_id@) =~= old(self).documents@);
                }
                Err(document_not_found_error(doc_id))
            },
        }
    }

    /// Copies of all documents, sorted by id.
    pub fn list_documents(&self) -> (v: Vec<(String, Document)>)
        ensures
            lists_documents(v@, self@),
    {
        list_collection(self)
    }
}

pub open spec fn collections_view(m: KeyMap<Collection>) -> DatabaseModel {
    m@.map_values(|c: Collection| c@)
}

/// The database: named collections, and the directory in which they are
/// persisted, if any.
#[derive(Debug, Clone, PartialEq)]
pub struct Database {
    pub collections: KeyMap<Collection>,
    pub storage_path: Option<String>,
}

impl View for Database {
    type V = DatabaseModel;

    open spec fn view(&self) -> DatabaseModel {
        collections_view(self.collections)
    }
}

/// The message of a missing collection.
pub open spec fn collection_not_found(name: Seq<char>) -> Seq<char> {
    "Collection '"@ + name + "' not found"@
}

/// The message of a missing document.
pub open spec fn document_not_found(id: Seq<char>) -> Seq<char> {
    "Document '"@ + id + "' not found"@
}

pub fn collection_not_found_error(name: &str) -> (s: String)
    ensures
        s@ == collection_not_found(name@),
{
    let mut s = "Collection '".to_owned();
    s.append(name);
    s.append("' not found");
    s
}

pub fn document_not_found_error(id: &str) -> (s: String)
    ensures
        s@ == document_not_found(id@),
{
    let mut s = "Document '".to_owned();
    s.append(id);
    s.append("' not found");
    s
}

/// A document after an update: the given fields merged over its own, and the
/// stamp field set to the time.
pub open spec fn merged_document(doc: DocModel, fields: DocModel, stamp: u64) -> DocModel {
    doc.union_prefer_right(fields).insert(updated_at_key(), Json::Num(stamp))
}

/// The outcome of updating document `id` of collection `c` with `fields` at
/// the time encoded by `stamp`.
pub open spec fn update_outcome(
    db: DatabaseModel,
    c: Seq<char>,
    id: Seq<char>,
    fields: DocModel,
    stamp: u64,
) -> Result<DatabaseModel, Seq<char>> {
    if !db.contains_key(c) {
        Err(collection_not_found(c))
    } else if !db[c].contains_key(id) {
        Err(document_not_found(id))
    } else {
        Ok(db.insert(c, db[c].insert(id, merged_document(db[c][id], fields, stamp))))
    }
}

/// The outcome of deleting document `id` of collection `c`.
pub open spec fn delete_outcome(db: DatabaseModel, c: Seq<char>, id: Seq<char>) -> Result<
    DatabaseModel,
    Seq<char>,
> {
    if !db.contains_key(c) {
        Err(collection_not_found(c))
    } else if !db[c].contains_key(id) {
        Err(document_not_found(id))
    } else {
        Ok(db.insert(c, db[c].remove(id)))
    }
}

/// The collection `c` after creating or replacing document `id`.
pub open spec fn with_document(db: DatabaseModel, c: Seq<char>, id: Seq<char>, doc: DocModel) -> DatabaseModel {
    let col = if db.contains_key(c) {
        db[c]
    } else {
        CollectionModel::empty()
    };
    db.insert(c, col.insert(id, doc))
}

/// `v` lists the documents of `col`: every document once, sorted by id.
pub open spec fn lists_documents(v: Seq<(String, Document)>, col: CollectionModel) -> bool {
    &&& forall|i: int, j: int| 0 <= i < j < v.len() ==> key_lt(#[trigger] v[i].0@, #[trigger] v[j].0@)
    &&& forall|i: int| 0 <= i < v.len() ==> col.contains_key((#[trigger] v[i]).0@) && col[v[i].0@] == v[i].1@
    &&& forall|k: Seq<char>| #[trigger] col.contains_key(k) ==> exists|i: int| 0 <= i < v.len() && #[trigger] v[i].0@ == k
}

pub proof fn lemma_map_values_insert<V, W>(m: Map<Seq<char>, V>, k: Seq<char>, v: V, f: spec_fn(V) -> W)
    ensures
        m.insert(k, v).map_values(f) == m.map_values(f).insert(k, f(v)),
{
    assert(m.insert(k, v).map_values(f) =~= m.map_values(f).insert(k, f(v)));
}

pub proof fn lemma_map_values_remove<V, W>(m: Map<Seq<char>, V>, k: Seq<char>, f: spec_fn(V) -> W)
    ensures
        m.remove(k).map_values(f) == m.map_values(f).remove(k),
{
    assert(m.remove(k).map_values(f) =~= m.map_values(f).remove(k));
}

pub proof fn lemma_map_values_union<V, W>(a: Map<Seq<char>, V>, b: Map<Seq<char>, V>, f: spec_fn(V) -> W)
    ensures
        a.union_prefer_right(b).map_values(f) == a.map_values(f).union_prefer_right(b.map_values(f)),
{
    assert(a.union_prefer_right(b).map_values(f) =~= a.map_values(f).union_prefer_right(b.map_values(f)));
}

/// Stores every field of `fields` in `target`, replacing values of keys that
/// were already there.
pub fn merge_fields(target: &mut KeyMap<Value>, fields: KeyMap<Value>)
    ensures
        final(target)@ == old(target)@.union_prefer_right(fields@),
{
    let ghost start = target@;
    let ghost fm = fields@;
    let mut es = fields.into_entries();
    let ghost full = es@;
    let ghost n = full.len();
    proof {
        assert(full.subrange(n as int, n as int) =~= Seq::<(String, Value)>::empty());
        assert(entries_map(full.subrange(n as int, n as int)) =~= Map::<Seq<char>, Value>::empty());
        assert(start.union_prefer_right(Map::<Seq<char>, Value>::empty()) =~= start);
        assert(full.subrange(0, n as int) =~= full);
    }
    while es.len() > 0
        invariant
            entries_sorted(full),
            n == full.len(),
            es@.len() <= n,
            es@ == full.subrange(0, es@.len() as int),
            target@ == start.union_prefer_right(entries_map(full.subrange(es@.len() as int, n as int))),
            entries_map(full) == fm,
        decreases es@.len(),
    {
        let ghost j = (es@.len() - 1) as int;
        let e = es.pop().unwrap();
        proof {
            assert(e == full[j]);
            let tail = full.subrange(j + 1, n as int);
            let wider = full.subrange(j, n as int);
            assert(wider =~= tail.insert(0, e));
            assert(entries_sorted(tail)) by {
                assert forall|a: int, b: int| 0 <= a < b < tail.len() implies key_lt(
                    #[trigger] tail[a].0@,
                    #[trigger] tail[b].0@,
                ) by {
                    assert(key_lt(full[j + 1 + a].0@, full[j + 1 + b].0@));
                }
            }
            assert forall|x: int| 0 <= x < tail.len() implies key_lt(e.0@, #[trigger] tail[x].0@) by {
                assert(key_lt(full[j].0@, full[j + 1 + x].0@));
            }
            lemma_entries_map_insert(tail, 0, e);
            assert(start.union_prefer_right(entries_map(tail)).insert(e.0@, e.1) =~= start.union_prefer_right(
                entries_map(tail).insert(e.0@, e.1),
            ));
            assert(es@ =~= full.subrange(0, j));
        }
        target.insert(e.0, e.1);
    }
    proof {
        assert(full.subrange(0, n as int) =~= full);
    }
}

impl Database {
    /// An empty database that is not persisted.
    pub fn new() -> (db: Self)
        ensures
            db@ == DatabaseModel::empty(),
            db.storage_path is None,
    {
        let db = Database { collections: KeyMap::new(), storage_path: None };
        assert(db@ =~= DatabaseModel::empty());
        db
    }

    /// An empty database persisted under `path`.
    pub fn with_storage_path(path: String) -> (db: Self)
        ensures
            db@ == DatabaseModel::empty(),
            db.storage_path == Some(path),
    {
        let db = Database { collections: KeyMap::new(), storage_path: Some(path) };
        assert(db@ =~= DatabaseModel::empty());
        db
    }

    /// Creates the collection `name` unless it exists already.
    pub fn create_collection(&mut self, name: String)
        ensures
            final(self)@ == (if old(self)@.contains_key(name@) {
                old(self)@
            } else {
                old(self)@.insert(name@, CollectionModel::empty())
            }),
            final(self).storage_path == old(self).storage_path,
    {
        if !self.collections.contains_key(name.as_str()) {
            let c = Collection::new();
            proof {
                lemma_map_values_insert(self.collections@, name@, c, |c: Collection| c@);
            }
            self.collections.insert(name, c);
        }
    }

    /// Removes the collection `name` and its documents.
    pub fn delete_collection(&mut self, name: &str) -> (r: Result<(), String>)
        ensures
            r is Ok,
            final(self)@ == old(self)@.remove(name@),
            final(self).storage_path == old(self).storage_path,
    {
        proof {
            lemma_map_values_remove(self.collections@, name@, |c: Collection| c@);
        }
        self.collections.remove(name);
        Ok(())
    }

    /// The collection `name`, if it exists.
    pub fn get_collection(&self, name: &str) -> (r: Option<&Collection>)
        ensures
            r is Some == self@.contains_key(name@),
            r matches Some(c) ==> c@ == self@[name@],
    {
        self.collections.get(name)
    }

    /// Creates or replaces document `doc_id` in collection `collection_name`,
    /// creating the collection when it does not exist.
    pub fn create_document(&mut self, collection_name: &str, doc_id: String, document: Document) -> (r: Result<(), String>)
        ensures
            r is Ok,
            final(self)@ == with_document(old(self)@, collection_name@, doc_id@, document@),
            final(self).storage_path == old(self).storage_path,
    {
        let ghost old_cols = self.collections@;
        let mut col = match self.collections.remove(collection_name) {
            Some(c) => c,
            None => Collection::new(),
        };
        let ghost before = col.documents@;
        col.documents.insert(doc_id, document);
        proof {
            lemma_map_values_insert(before, doc_id@, document, |d: Document| d@);
            lemma_map_values_remove(old_cols, collection_name@, |c: Collection| c@);
            lemma_map_values_insert(old_cols.remove(collection_name@), collection_name@, col, |c: Collection| c@);
            assert(old_cols.remove(collection_name@).map_values(|c: Collection| c@).insert(collection_name@, col@)
                =~= with_document(old_cols.map_values(|c: Collection| c@), collection_name@, doc_id@, document@));
        }
        self.collections.insert(collection_name.to_owned(), col);
        Ok(())
    }

    /// Document `doc_id` of collection `collection_name`, if both exist.
    pub fn get_document(&self, collection_name: &str, doc_id: &str) -> (r: Option<&Document>)
        ensures
            r is Some == (self@.contains_key(collection_name@) && self@[collection_name@].contains_key(doc_id@)),
            r matches Some(d) ==> d@ == self@[collection_name@][doc_id@],
    {
        match self.collections.get(collection_name) {
            Some(col) => col.documents.get(doc_id),
            None => None,
        }
    }

    /// Merges `fields` into document `doc_id` of collection `collection_name`
    /// and stamps `_updated_at` with the binary64 encoding `stamp`.
    pub fn update_document_stamped(
        &mut self,
        collection_name: &str,
        doc_id: &str,
        fields: KeyMap<Value>,
        stamp: u64,
    ) -> (r: Result<(), String>)
        ensures
            match update_outcome(old(self)@, collection_name@, doc_id@, fields_view(fields), stamp) {
                Ok(db) => r is Ok && final(self)@ == db,
                Err(msg) => r matches Err(e) && e@ == msg && final(self)@ == old(self)@,
            },
            final(self).storage_path == old(self).storage_path,
    {
        let ghost old_cols = self.collections@;
        let found = match self.collections.get(collection_name) {
            Some(col) => {
                if col.documents.contains_key(doc_id) {
                    Ok(())
                } else {
                    Err(document_not_found_error(doc_id))
                }
            },
            None => Err(collection_not_found_error(collection_name)),
        };
        if let Err(e) = found {
            return Err(e);
        }
        let mut col = self.collections.remove(collection_name).unwrap();
        let ghost docs_before = col.documents@;
        let mut doc = col.documents.remove(doc_id).unwrap();
        let ghost fields_before = doc.fields@;
        merge_fields(&mut doc.fields, fields);
        let ghost merged = doc.fields@;
        let key = "_updated_at".to_owned();
        proof {
            reveal_strlit("_updated_at");
            assert(key@ =~= updated_at_key());
        }
        doc.fields.insert(key, Value::Number(stamp));
        proof {
            let f = |v: Value| v@;
            lemma_map_values_insert(merged, updated_at_key(), Value::Number(stamp), f);
            lemma_map_values_union(fields_before, fields@, f);
            assert(doc@ == merged_document(docs_before[doc_id@]@, fields_view(fields), stamp));
        }
        col.documents.insert(doc_id.to_owned(), doc);
        proof {
            let g = |d: Document| d@;
            lemma_map_values_remove(docs_before, doc_id@, g);
            lemma_map_values_insert(docs_before.remove(doc_id@), doc_id@, doc, g);
            assert(docs_before.remove(doc_id@).insert(doc_id@, doc) =~= docs_before.insert(doc_id@, doc));
            let h = |c: Collection| c@;
            lemma_map_values_remove(old_cols, collection_name@, h);
            lemma_map_values_insert(old_cols.remove(collection_name@), collection_name@, col, h);
            assert(old_cols.remove(collection_name@).insert(collection_name@, col) =~= old_cols.insert(
                collection_name@,
                col,
            ));
            lemma_map_values_insert(old_cols, collection_name@, col, h);
            lemma_map_values_insert(docs_before, doc_id@, doc, g);
        }
        self.collections.insert(collection_name.to_owned(), col);
        Ok(())
    }

    /// Merges `fields` into document `doc_id` of collection `collection_name`
    /// and stamps `_updated_at` with the current time in milliseconds.
    pub fn update_document(&mut self, collection_name: &str, doc_id: &str, fields: KeyMap<Value>) -> (r: Result<(), String>)
        ensures
            exists|stamp: u64|
                {
                    &&& f64_is_count(stamp)
                    &&& !f64_is_nan(stamp)
                    &&& !f64_negative(stamp)
                    &&& match update_outcome(old(self)@, collection_name@, doc_id@, fields_view(fields), stamp) {
                        Ok(db) => r is Ok && final(self)@ == db,
                        Err(msg) => r matches Err(e) && e@ == msg && final(self)@ == old(self)@,
                    }
                },
            final(self).storage_path == old(self).storage_path,
    {
        let stamp = f64_bits_from_u64(now_millis());
        self.update_document_stamped(collection_name, doc_id, fields, stamp)
    }

    /// Deletes document `doc_id` of collection `collection_name`.
    pub fn delete_document(&mut self, collection_name: &str, doc_id: &str) -> (r: Result<(), String>)
        ensures
            match delete_outcome(old(self)@, collection_name@, doc_id@) {
                Ok(db) => r is Ok && final(self)@ == db,
                Err(msg) => r matches Err(e) && e@ == msg && final(self)@ == old(self)@,
            },
            final(self).storage_path == old(self).storage_path,
    {
        let ghost old_cols = self.collections@;
        let found = match self.collections.get(collection_name) {
            Some(col) => {
                if col.documents.contains_key(doc_id) {
                    Ok(())
                } else {
                    Err(document_not_found_error(doc_id))
                }
            },
            None => Err(collection_not_found_error(collection_name)),
        };
        if let Err(e) = found {
            return Err(e);
        }
        let mut col = self.collections.remove(collection_name).unwrap();
        let ghost docs_before = col.documents@;
        col.documents.remove(doc_id);
        proof {
            let g = |d: Document| d@;
            lemma_map_values_remove(docs_before, doc_id@, g);
            let h = |c: Collection| c@;
            lemma_map_values_remove(old_cols, collection_name@, h);
            lemma_map_values_insert(old_cols.remove(collection_name@), collection_name@, col, h);
            lemma_map_values_insert(old_cols, collection_name@, col, h);
            assert(old_cols.remove(collection_name@).insert(collection_name@, col) =~= old_cols.insert(
                collection_name@,
                col,
            ));
        }
        self.collections.insert(collection_name.to_owned(), col);
        Ok(())
    }

    /// All documents of collection `collection_name`, sorted by id.
    pub fn list_documents(&self, collection_name: &str) -> (r: Result<Vec<(String, Document)>, String>)
        ensures
            match r {
                Ok(v) => self@.contains_key(collection_name@) && lists_documents(v@, self@[collection_name@]),
                Err(e) => !self@.contains_key(collection_name@) && e@ == collection_not_found(collection_name@),
            },
    {
        match self.collections.get(collection_name) {
            Some(col) => Ok(list_collection(col)),
            None => Err(collection_not_found_error(collection_name)),
        }
    }
}

/// Copies of all documents of `col`, sorted by id.
pub fn list_collection(col: &Collection) -> (v: Vec<(String, Document)>)
    ensures
        lists_documents(v@, col@),
        v@.len() == col.documents.spec_entries().len(),
        forall|i: int| 0 <= i < v@.len() ==> (#[trigger] v@[i]).0@ == col.documents.spec_entries()[i].0@
            && v@[i].1@ == col.documents.spec_entries()[i].1@,
{
    let es = col.documents.entries();
    let n = es.len();
    let mut v: Vec<(String, Document)> = Vec::new();
    let mut i: usize = 0;
    while i < n
        invariant
            n == es@.len(),
            es@ == col.documents.spec_entries(),
            i <= n,
            v@.len() == i,
            forall|j: int| 0 <= j < i ==> (#[trigger] v@[j]).0@ == es@[j].0@ && v@[j].1@ == es@[j].1@,
        decreases n - i,
    {
        let id = es[i].0.clone();
        let d = es[i].1.copy();
        v.push((id, d));
        i = i + 1;
    }
    proof {
        let s = es@;
        assert forall|a: int, b: int| 0 <= a < b < v@.len() implies key_lt(#[trigger] v@[a].0@, #[trigger] v@[b].0@) by {
            assert(key_lt(s[a].0@, s[b].0@));
        }
        assert forall|a: int| 0 <= a < v@.len() implies col@.contains_key((#[trigger] v@[a]).0@) && col@[v@[a].0@]
            == v@[a].1@ by {
            lemma_entries_map_index(s, a);
        }
        assert forall|k: Seq<char>| #[trigger] col@.contains_key(k) implies exists|a: int| 0 <= a < v@.len() && #[trigger] v@[a].0@ == k by {
            let a = choose|a: int| 0 <= a < s.len() && #[trigger] s[a].0@ == k;
            assert(v@[a].0@ == k);
        }
    }
    v
}

} // verus!
