//! The bodies, forms and query strings that the API and the dashboard
//! receive, and what the API does to a document before storing or sending it.

use vstd::prelude::*;

use crate::auth::{is_uuid_v4_text, resolve_document_id};
use crate::clock::now_millis;
use crate::document::Document;
use crate::key_map::KeyMap;
use crate::number::{f64_bits_from_u64, f64_is_count, f64_is_nan, f64_negative};
use crate::value::{Json, Value};

verus! {

/// Options of `POST /api/v1/{collection}/{id}`.
#[derive(Clone, Debug)]
pub struct CreateDocumentQuery {
    pub timestamp: Option<bool>,
}

impl Default for CreateDocumentQuery {
    fn default() -> (q: Self)
        ensures
            q.timestamp is None,
    {
        CreateDocumentQuery { timestamp: None }
    }
}

/// Options of `GET /api/v1/{collection}`.
#[derive(Clone, Debug)]
pub struct ListDocumentsQuery {
    pub limit: Option<usize>,
    pub offset: Option<usize>,
}

impl Default for ListDocumentsQuery {
    fn default() -> (q: Self)
        ensures
            q.limit is None,
            q.offset is None,
    {
        ListDocumentsQuery { limit: None, offset: None }
    }
}

/// Body of a registration: credentials and the fields of the profile.
#[derive(Debug)]
pub struct RegisterPayload {
    pub email: String,
    pub password: String,
    pub extra: KeyMap<Value>,
}

/// Body of a login.
#[derive(Clone, Debug)]
pub struct LoginPayload {
    pub email: String,
    pub password: String,
}

/// The dashboard's login form.
#[derive(Clone, Debug)]
pub struct LoginForm {
    pub username: Option<String>,
    pub password: Option<String>,
}

/// The dashboard's form that creates a collection.
#[derive(Clone, Debug)]
pub struct CreateCollectionForm {
    pub name: String,
}

/// The dashboard's form that creates a document from JSON text.
#[derive(Clone, Debug)]
pub struct CreateDocumentForm {
    pub doc_id: String,
    pub json: String,
}

/// The dashboard's form that updates a document from JSON text.
#[derive(Clone, Debug)]
pub struct UpdateDocumentForm {
    pub json: String,
}

/// The dashboard's query string: the collection shown.
#[derive(Clone, Debug)]
pub struct QueryParams {
    pub collection: Option<String>,
}

pub open spec fn created_at_key() -> Seq<char> {
    seq!['_', 'c', 'r', 'e', 'a', 't', 'e', 'd', '_', 'a', 't']
}

/// Sets the `_created_at` field of `doc` to the time encoded by `stamp`.
pub fn stamp_created(doc: &mut Document, stamp: u64)
    ensures
        final(doc)@ == old(doc)@.insert(created_at_key(), Json::Num(stamp)),
{
    let key = "_created_at".to_owned();
    proof {
        reveal_strlit("_created_at");
        assert(key@ =~= created_at_key());
        crate::document::lemma_map_values_insert(doc.fields@, key@, Value::Number(stamp), |v: Value| v@);
    }
    doc.fields.insert(key, Value::Number(stamp));
}

/// The id and document that `POST /api/v1/{collection}/{id}` stores: a fresh
/// id for `new_id`, and `_created_at` set to the current time in
/// milliseconds when the client asks for a timestamp.
pub fn prepare_new_document(requested_id: String, doc: Document, timestamp: Option<bool>) -> (r: (String, Document))
    ensures
        requested_id@ != "new_id"@ ==> r.0 == requested_id,
        requested_id@ == "new_id"@ ==> is_uuid_v4_text(r.0@),
        timestamp != Some(true) ==> r.1@ == doc@,
        timestamp == Some(true) ==> exists|stamp: u64|
            f64_is_count(stamp) && !f64_is_nan(stamp) && !f64_negative(stamp) && r.1@ == doc@.insert(created_at_key(), Json::Num(stamp)),
{
    let id = resolve_document_id(requested_id);
    let mut doc = doc;
    let wants = match timestamp {
        Some(b) => b,
        None => false,
    };
    if wants {
        let stamp = f64_bits_from_u64(now_millis());
        stamp_created(&mut doc, stamp);
    }
    (id, doc)
}

/// The document as the API sends it: its fields and its id under `id`.
pub fn document_with_id(id: String, doc: Document) -> (r: Document)
    ensures
        r@ == doc@.insert(seq!['i', 'd'], Json::Str(id@)),
{
    let mut doc = doc;
    let key = "id".to_owned();
    proof {
        reveal_strlit("id");
        assert(key@ =~= seq!['i', 'd']);
        crate::document::lemma_map_values_insert(doc.fields@, key@, Value::String(id), |v: Value| v@);
    }
    doc.fields.insert(key, Value::String(id));
    doc
}

} // verus!
