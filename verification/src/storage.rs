//! Where documents are persisted: one directory per collection under the
//! storage directory, one `<id>.bin` file per document.

use vstd::prelude::*;
use vstd::string::{StrSliceExecFns, StringExecFns};

verus! {

/// The extension of document files.
pub open spec fn bin_suffix() -> Seq<char> {
    seq!['.', 'b', 'i', 'n']
}

pub open spec fn collection_dir_spec(base: Seq<char>, collection: Seq<char>) -> Seq<char> {
    base + seq!['/'] + collection
}

pub open spec fn document_path_spec(base: Seq<char>, collection: Seq<char>, doc_id: Seq<char>) -> Seq<char> {
    collection_dir_spec(base, collection) + seq!['/'] + doc_id + bin_suffix()
}

/// A file name that holds a document: an id of at least one character and `.bin`.
pub open spec fn is_document_file_name(name: Seq<char>) -> bool {
    name.len() > 4 && name.subrange(name.len() - 4, name.len() as int) == bin_suffix()
}

/// The id of the document that a file holds.
pub open spec fn document_id_of(name: Seq<char>) -> Seq<char> {
    name.subrange(0, name.len() - 4)
}

/// The directory of a collection.
pub fn collection_dir(base: &str, collection: &str) -> (r: String)
    ensures
        r@ == collection_dir_spec(base@, collection@),
{
    let mut r = base.to_owned();
    proof {
        reveal_strlit("/");
    }
    r.append("/");
    r.append(collection);
    r
}

/// The file name of a document.
pub fn document_file_name(doc_id: &str) -> (r: String)
    ensures
        r@ == doc_id@ + bin_suffix(),
{
    let mut r = doc_id.to_owned();
    proof {
        reveal_strlit(".bin");
    }
    r.append(".bin");
    r
}

/// The path of the file of a document.
pub fn document_path(base: &str, collection: &str, doc_id: &str) -> (r: String)
    ensures
        r@ == document_path_spec(base@, collection@, doc_id@),
{
    let mut r = collection_dir(base, collection);
    proof {
        reveal_strlit("/");
    }
    r.append("/");
    let name = document_file_name(doc_id);
    r.append(name.as_str());
    proof {
        assert(r@ =~= document_path_spec(base@, collection@, doc_id@));
    }
    r
}

/// The id of the document held by the file `name`, when it is a document file.
pub fn document_id_from_file_name(name: &str) -> (r: Option<String>)
    ensures
        r is Some == is_document_file_name(name@),
        r matches Some(id) ==> id@ == document_id_of(name@),
{
    let n = name.unicode_len();
    if n <= 4 {
        return None;
    }
    let a = name.get_char(n - 4);
    let b = name.get_char(n - 3);
    let c = name.get_char(n - 2);
    let d = name.get_char(n - 1);
    if a == '.' && b == 'b' && c == 'i' && d == 'n' {
        proof {
            assert(name@.subrange(n - 4, n as int) =~= bin_suffix());
        }
        Some(name.substring_char(0, n - 4).to_owned())
    } else {
        proof {
            let t = name@.subrange(n - 4, n as int);
            if t == bin_suffix() {
                assert(t[0] == name@[n - 4]);
                assert(t[1] == name@[n - 3]);
                assert(t[2] == name@[n - 2]);
                assert(t[3] == name@[n - 1]);
            }
        }
        None
    }
}

/// The file name of a document with a non-empty id gives that id back.
pub proof fn lemma_document_file_name_roundtrip(doc_id: Seq<char>)
    requires
        doc_id.len() > 0,
    ensures
        is_document_file_name(doc_id + bin_suffix()),
        document_id_of(doc_id + bin_suffix()) == doc_id,
{
    let name = doc_id + bin_suffix();
    assert(name.subrange(name.len() - 4, name.len() as int) =~= bin_suffix());
    assert(document_id_of(name) =~= doc_id);
}

} // verus!
