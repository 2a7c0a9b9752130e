//! Properties of the library as a whole, stated over the models that the
//! operations' contracts use.

use vstd::prelude::*;

use std::cmp::Ordering;

use crate::auth::{allowed_authentication_field, credentials_model, rotated};
use crate::compare::{lemma_sort_order_antisymmetric, nat_order, op_holds, sort_order, WhereOp};
use crate::number::{
    f64_encodes_int, f64_is_nan, f64_magnitude, f64_negative, f64_partial_cmp, lemma_encodes_int_order, with_sign_bit,
    SIGN_BIT,
};
use crate::document::{
    collection_update_outcome, delete_outcome, merged_document, update_outcome, updated_at_key, with_document, CollectionModel,
    DatabaseModel, DocModel, Document,
};
use crate::keys::lemma_key_lt_strict_total;
use crate::compare::sortable;
use crate::query::{
    arranged, filters_hold, keys_sortable, matching, placed_before, query_filters, query_result, sort_key, window, OrderBy,
    Query, WhereFilter,
};
use crate::value::{json_eq, Json};

verus! {

/// A document that was just created is read back as written, and every other
/// document is unchanged.
pub proof fn law_read_after_create(db: DatabaseModel, c: Seq<char>, id: Seq<char>, doc: DocModel)
    ensures
        with_document(db, c, id, doc).contains_key(c),
        with_document(db, c, id, doc)[c].contains_key(id),
        with_document(db, c, id, doc)[c][id] == doc,
        forall|c2: Seq<char>, id2: Seq<char>|
            (c2 != c || id2 != id) && #[trigger] db.contains_key(c2) && db[c2].contains_key(id2) ==> with_document(
                db,
                c,
                id,
                doc,
            )[c2].contains_key(id2) && #[trigger] with_document(db, c, id, doc)[c2][id2] == db[c2][id2],
{
}

/// A deleted document is gone, and every other document is unchanged.
pub proof fn law_delete_removes(db: DatabaseModel, c: Seq<char>, id: Seq<char>)
    requires
        db.contains_key(c),
        db[c].contains_key(id),
    ensures
        delete_outcome(db, c, id) matches Ok(after) && !after[c].contains_key(id)
            && (forall|id2: Seq<char>| id2 != id && #[trigger] db[c].contains_key(id2) ==> after[c].contains_key(id2)
                && after[c][id2] == db[c][id2]),
{
}

/// Deleting a document that does not exist fails and changes nothing.
pub proof fn law_delete_missing(db: DatabaseModel, c: Seq<char>, id: Seq<char>)
    requires
        !(db.contains_key(c) && db[c].contains_key(id)),
    ensures
        delete_outcome(db, c, id) is Err,
{
}

/// An update keeps the fields it does not name, takes the values of the
/// fields it names, and stamps `_updated_at`.
pub proof fn law_update_merges(doc: DocModel, fields: DocModel, stamp: u64)
    ensures
        merged_document(doc, fields, stamp)[updated_at_key()] == Json::Num(stamp),
        forall|k: Seq<char>| #[trigger] fields.contains_key(k) && k != updated_at_key() ==> merged_document(
            doc,
            fields,
            stamp,
        )[k] == fields[k],
        forall|k: Seq<char>|
            #[trigger] doc.contains_key(k) && !fields.contains_key(k) && k != updated_at_key() ==> merged_document(
                doc,
                fields,
                stamp,
            )[k] == doc[k],
        forall|k: Seq<char>| #[trigger] merged_document(doc, fields, stamp).contains_key(k) <==> (doc.contains_key(k)
            || fields.contains_key(k) || k == updated_at_key()),
{
}

/// An update of an existing document leaves the other documents alone; an
/// update of a missing one fails.
pub proof fn law_update_targets_one_document(
    db: DatabaseModel,
    c: Seq<char>,
    id: Seq<char>,
    fields: DocModel,
    stamp: u64,
)
    ensures
        (db.contains_key(c) && db[c].contains_key(id)) <==> update_outcome(db, c, id, fields, stamp) is Ok,
        update_outcome(db, c, id, fields, stamp) matches Ok(after) ==> forall|c2: Seq<char>, id2: Seq<char>|
            (c2 != c || id2 != id) && #[trigger] db.contains_key(c2) && db[c2].contains_key(id2) ==> after[c2].contains_key(
                id2,
            ) && #[trigger] after[c2][id2] == db[c2][id2],
{
}

/// The collection that `create_collection` leaves: the existing one, or an
/// empty one.
pub open spec fn with_collection(db: DatabaseModel, name: Seq<char>) -> DatabaseModel {
    if db.contains_key(name) {
        db
    } else {
        db.insert(name, CollectionModel::empty())
    }
}

/// Taking back credentials that a registration has just stored (because its
/// profile could not be stored) leaves the database as before, save that the
/// credentials collection now exists: no account is left half made.
pub proof fn law_registration_rollback(db: DatabaseModel, c: Seq<char>, id: Seq<char>, credentials: DocModel)
    requires
        db.contains_key(c) ==> !db[c].contains_key(id),
    ensures
        delete_outcome(with_document(db, c, id, credentials), c, id) == Ok::<DatabaseModel, Seq<char>>(
            db.insert(
                c,
                if db.contains_key(c) {
                    db[c]
                } else {
                    CollectionModel::empty()
                },
            ),
        ),
{
    let before = if db.contains_key(c) {
        db[c]
    } else {
        CollectionModel::empty()
    };
    let after = with_document(db, c, id, credentials);
    assert(after[c] == before.insert(id, credentials));
    assert(before.insert(id, credentials).remove(id) =~= before);
    assert(after.insert(c, after[c].remove(id)) =~= db.insert(c, before));
}

/// Creating a collection twice is creating it once, and never loses documents.
pub proof fn law_create_collection_idempotent(db: DatabaseModel, name: Seq<char>)
    ensures
        with_collection(with_collection(db, name), name) == with_collection(db, name),
        with_collection(db, name).contains_key(name),
        db.contains_key(name) ==> with_collection(db, name)[name] == db[name],
{
}

/// `!=` is the negation of `==`, and the order operators mirror each other
/// when the operands are swapped.
pub proof fn law_operators_mirror(a: Json, b: Json)
    ensures
        op_holds(a, WhereOp::NotEqual, b) == !op_holds(a, WhereOp::Equal, b),
        op_holds(a, WhereOp::GreaterThan, b) == op_holds(b, WhereOp::LessThan, a),
        op_holds(a, WhereOp::GreaterThanOrEqual, b) == op_holds(b, WhereOp::LessThanOrEqual, a),
        op_holds(a, WhereOp::GreaterThanOrEqual, b) == (op_holds(a, WhereOp::GreaterThan, b) || sort_order(a, b)
            == Ordering::Equal),
{
    lemma_sort_order_antisymmetric(a, b);
}

/// Every result of a query passes every filter of the query and is a
/// document of the collection.
pub proof fn law_results_pass_filters(
    s: Seq<(String, Document)>,
    col: CollectionModel,
    fs: Seq<WhereFilter>,
    order: Option<OrderBy>,
    offset: Option<usize>,
    limit: Option<usize>,
)
    requires
        arranged(s, matching(col, fs), order),
    ensures
        forall|i: int|
            0 <= i < window(s, offset, limit).len() ==> col.contains_key((#[trigger] window(s, offset, limit)[i]).0@)
                && col[window(s, offset, limit)[i].0@] == window(s, offset, limit)[i].1@ && filters_hold(
                window(s, offset, limit)[i].1@,
                fs,
            ),
{
    let w = window(s, offset, limit);
    let m = matching(col, fs);
    assert forall|i: int| 0 <= i < w.len() implies col.contains_key((#[trigger] w[i]).0@) && col[w[i].0@] == w[i].1@
        && filters_hold(w[i].1@, fs) by {
        let j = lemma_window_index(s, offset, limit, i);
        assert(m.contains_key(s[j].0@));
    }
}

/// The window of a query holds `limit` results at most, after skipping
/// `offset` of them.
pub proof fn law_window_len(s: Seq<int>, offset: Option<usize>, limit: Option<usize>)
    ensures
        ({
            let skipped = match offset {
                Some(o) => if o < s.len() {
                    s.len() - o
                } else {
                    0
                },
                None => s.len() as int,
            };
            let kept = match limit {
                Some(l) => if l < skipped {
                    l as int
                } else {
                    skipped
                },
                None => skipped,
            };
            window(s, offset, limit).len() == kept
        }),
{
}

/// The `i`th result of a window is result `j` of the whole arrangement.
pub proof fn lemma_window_index<A>(s: Seq<A>, offset: Option<usize>, limit: Option<usize>, i: int) -> (j: int)
    requires
        0 <= i < window(s, offset, limit).len(),
    ensures
        0 <= j < s.len(),
        window(s, offset, limit)[i] == s[j],
        j == match offset {
            Some(o) => o + i,
            None => i,
        },
{
    match offset {
        Some(o) => if o < s.len() {
            o + i
        } else {
            i
        },
        None => i,
    }
}

/// Two results with the same id and the same document are placed alike.
pub open spec fn same_result(a: (String, Document), b: (String, Document)) -> bool {
    a.0@ == b.0@ && a.1@ == b.1@
}

proof fn lemma_placed_before_asymmetric(a: (String, Document), b: (String, Document), order: Option<OrderBy>)
    ensures
        !(placed_before(a, b, order) && placed_before(b, a, order)),
{
    lemma_key_lt_strict_total(a.0@, b.0@, a.0@);
    if let Some(o) = order {
        lemma_sort_order_antisymmetric(sort_key(a.1@, o.field@), sort_key(b.1@, o.field@));
    }
}

/// Results of a query on a collection whose sort values hold no NaN come in
/// exactly one order: two arrangements of the same documents agree place by
/// place.
pub proof fn law_arrangement_unique(
    s1: Seq<(String, Document)>,
    s2: Seq<(String, Document)>,
    m: CollectionModel,
    order: Option<OrderBy>,
)
    requires
        arranged(s1, m, order),
        arranged(s2, m, order),
        keys_sortable(s1, order),
        keys_sortable(s2, order),
    ensures
        s1.len() == s2.len(),
        forall|i: int| 0 <= i < s1.len() ==> same_result(#[trigger] s1[i], s2[i]),
    decreases s1.len(),
{
    if s1.len() == 0 {
        if s2.len() > 0 {
            assert(m.contains_key(s2[0].0@));
        }
    } else {
        assert(m.contains_key(s1[0].0@));
        assert(s2.len() > 0) by {
            let j = choose|j: int| 0 <= j < s2.len() && #[trigger] s2[j].0@ == s1[0].0@;
        }
        assert(m.contains_key(s2[0].0@));
        let j = choose|j: int| 0 <= j < s1.len() && #[trigger] s1[j].0@ == s2[0].0@;
        let l = choose|l: int| 0 <= l < s2.len() && #[trigger] s2[l].0@ == s1[0].0@;
        assert(same_result(s1[j], s2[0]));
        assert(same_result(s2[l], s1[0]));
        if j > 0 && l > 0 {
            assert(placed_before(s1[0], s1[j], order));
            assert(placed_before(s2[0], s2[l], order));
            assert(placed_before(s1[0], s2[0], order));
            assert(placed_before(s2[0], s1[0], order));
            lemma_placed_before_asymmetric(s1[0], s2[0], order);
        }
        assert(same_result(s1[0], s2[0]));
        let k = s1[0].0@;
        let m2 = m.remove(k);
        let t1 = s1.drop_first();
        let t2 = s2.drop_first();
        assert(arranged(t1, m2, order)) by {
            assert forall|i: int| 0 <= i < t1.len() implies m2.contains_key((#[trigger] t1[i]).0@) && m2[t1[i].0@] == t1[i].1@ by {
                assert(t1[i] == s1[i + 1]);
            }
            assert forall|x: Seq<char>| #[trigger] m2.contains_key(x) implies exists|i: int| 0 <= i < t1.len() && #[trigger] t1[i].0@ == x by {
                let i = choose|i: int| 0 <= i < s1.len() && #[trigger] s1[i].0@ == x;
                assert(t1[i - 1] == s1[i]);
            }
            assert forall|a: int, b: int| 0 <= a < b < t1.len() implies (#[trigger] t1[a]).0@ != (#[trigger] t1[b]).0@ by {
                assert(s1[a + 1] == t1[a] && s1[b + 1] == t1[b]);
            }
            if keys_sortable(t1, order) {
                assert forall|a: int, b: int| 0 <= a < b < t1.len() implies placed_before(#[trigger] t1[a], #[trigger] t1[b], order) by {
                    assert(s1[a + 1] == t1[a] && s1[b + 1] == t1[b]);
                }
            }
        }
        assert(arranged(t2, m2, order)) by {
            assert forall|i: int| 0 <= i < t2.len() implies m2.contains_key((#[trigger] t2[i]).0@) && m2[t2[i].0@] == t2[i].1@ by {
                assert(t2[i] == s2[i + 1]);
            }
            assert forall|x: Seq<char>| #[trigger] m2.contains_key(x) implies exists|i: int| 0 <= i < t2.len() && #[trigger] t2[i].0@ == x by {
                let i = choose|i: int| 0 <= i < s2.len() && #[trigger] s2[i].0@ == x;
                assert(t2[i - 1] == s2[i]);
            }
            assert forall|a: int, b: int| 0 <= a < b < t2.len() implies (#[trigger] t2[a]).0@ != (#[trigger] t2[b]).0@ by {
                assert(s2[a + 1] == t2[a] && s2[b + 1] == t2[b]);
            }
            if keys_sortable(t2, order) {
                assert forall|a: int, b: int| 0 <= a < b < t2.len() implies placed_before(#[trigger] t2[a], #[trigger] t2[b], order) by {
                    assert(s2[a + 1] == t2[a] && s2[b + 1] == t2[b]);
                }
            }
        }
        assert(keys_sortable(t1, order)) by {
            if let Some(o) = order {
                assert forall|i: int| 0 <= i < t1.len() implies crate::compare::sortable(sort_key((#[trigger] t1[i]).1@, o.field@)) by {
                    assert(t1[i] == s1[i + 1]);
                }
            }
        }
        assert(keys_sortable(t2, order)) by {
            if let Some(o) = order {
                assert forall|i: int| 0 <= i < t2.len() implies crate::compare::sortable(sort_key((#[trigger] t2[i]).1@, o.field@)) by {
                    assert(t2[i] == s2[i + 1]);
                }
            }
        }
        law_arrangement_unique(t1, t2, m2, order);
        assert forall|i: int| 0 <= i < s1.len() implies same_result(#[trigger] s1[i], s2[i]) by {
            if i > 0 {
                assert(t1[i - 1] == s1[i] && t2[i - 1] == s2[i]);
            }
        }
    }
}

/// No document that query `q` keeps from `col` holds a NaN under the field
/// that `q` orders by.
pub open spec fn sort_values_sortable(col: CollectionModel, q: Query) -> bool {
    match q.order_by {
        None => true,
        Some(o) => forall|k: Seq<char>|
            #[trigger] matching(col, query_filters(q)).contains_key(k) ==> sortable(sort_key(col[k], o.field@)),
    }
}

/// A query has one answer: two results of the same query on the same
/// documents, none of whose sort values is NaN, agree place by place.
pub proof fn law_query_result_unique(
    r1: Seq<(String, Document)>,
    r2: Seq<(String, Document)>,
    col: CollectionModel,
    q: Query,
)
    requires
        query_result(r1, col, q),
        query_result(r2, col, q),
        sort_values_sortable(col, q),
    ensures
        r1.len() == r2.len(),
        forall|i: int| 0 <= i < r1.len() ==> same_result(#[trigger] r1[i], r2[i]),
{
    let m = matching(col, query_filters(q));
    let s1 = choose|s: Seq<(String, Document)>| arranged(s, m, q.order_by) && r1 == #[trigger] window(s, q.offset, q.limit);
    let s2 = choose|s: Seq<(String, Document)>| arranged(s, m, q.order_by) && r2 == #[trigger] window(s, q.offset, q.limit);
    if let Some(o) = q.order_by {
        assert forall|i: int| 0 <= i < s1.len() implies sortable(sort_key((#[trigger] s1[i]).1@, o.field@)) by {
            assert(m.contains_key(s1[i].0@));
        }
        assert forall|i: int| 0 <= i < s2.len() implies sortable(sort_key((#[trigger] s2[i]).1@, o.field@)) by {
            assert(m.contains_key(s2[i].0@));
        }
    }
    law_arrangement_unique(s1, s2, m, q.order_by);
    assert(r1.len() == r2.len());
    assert forall|i: int| 0 <= i < r1.len() implies same_result(#[trigger] r1[i], r2[i]) by {
        let j1 = lemma_window_index(s1, q.offset, q.limit, i);
        let j2 = lemma_window_index(s2, q.offset, q.limit, i);
        assert(j1 == j2);
    }
}

/// The shared database (the one that the server locks collection by
/// collection) is made by moving each collection of a database into it
/// unchanged, and answers a query by asking the collection that it holds
/// under the name; the database asks its own collection of that name. Where
/// no sort value is NaN, the two answers agree place by place.
pub proof fn law_shared_query_is_database_query(
    db: DatabaseModel,
    c: Seq<char>,
    held: CollectionModel,
    q: Query,
    from_shared: Seq<(String, Document)>,
    from_database: Seq<(String, Document)>,
)
    requires
        db.contains_key(c),
        held == db[c],
        query_result(from_shared, held, q),
        query_result(from_database, db[c], q),
        sort_values_sortable(db[c], q),
    ensures
        from_shared.len() == from_database.len(),
        forall|i: int| 0 <= i < from_shared.len() ==> same_result(#[trigger] from_shared[i], from_database[i]),
{
    law_query_result_unique(from_shared, from_database, held, q);
}

/// A listing sorted by id is the arrangement of a query without order.
pub proof fn law_listing_is_unordered_query(s: Seq<(String, Document)>, m: CollectionModel)
    requires
        crate::document::lists_documents(s, m),
    ensures
        arranged(s, m, None),
{
    assert forall|a: int, b: int| 0 <= a < b < s.len() implies (#[trigger] s[a]).0@ != (#[trigger] s[b]).0@ by {
        lemma_key_lt_strict_total(s[a].0@, s[b].0@, s[b].0@);
    }
}

/// A query without filters, order or window lists the collection as
/// `list_documents` does.
pub proof fn law_plain_query_is_listing(
    s: Seq<(String, Document)>,
    listing: Seq<(String, Document)>,
    col: CollectionModel,
)
    requires
        arranged(s, matching(col, Seq::empty()), None),
        crate::document::lists_documents(listing, col),
    ensures
        window(s, None, None) == s,
        s.len() == listing.len(),
        forall|i: int| 0 <= i < s.len() ==> same_result(#[trigger] s[i], listing[i]),
{
    law_no_filter_matches_all(col);
    law_listing_is_unordered_query(listing, col);
    law_arrangement_unique(s, listing, col, None);
}

/// Without filters every document matches.
pub proof fn law_no_filter_matches_all(col: CollectionModel)
    ensures
        matching(col, Seq::empty()) == col,
{
    assert(matching(col, Seq::empty()) =~= col);
}

/// The credentials document of a registration holds only fields that the
/// `authentication` collection accepts.
pub proof fn law_registration_passes_validation(email: Seq<char>, password_hash: Seq<char>)
    ensures
        forall|k: Seq<char>| #[trigger] credentials_model(email, password_hash).contains_key(k) ==> allowed_authentication_field(k),
{
}

/// Rotating a session moves it to the new token: the old token no longer
/// opens it, the new one opens it for the same account, others are untouched.
pub proof fn law_session_rotation(m: Map<Seq<char>, Seq<char>>, old_token: Seq<char>, new_token: Seq<char>)
    requires
        m.contains_key(old_token),
        old_token != new_token,
    ensures
        !rotated(m, old_token, new_token).contains_key(old_token),
        rotated(m, old_token, new_token)[new_token] == m[old_token],
        forall|t: Seq<char>| t != old_token && t != new_token ==> #[trigger] rotated(m, old_token, new_token).contains_key(t)
            == m.contains_key(t) && (m.contains_key(t) ==> rotated(m, old_token, new_token)[t] == m[t]),
{
}

/// `new` is `old` with `fields` merged over it and `_updated_at` set to the
/// number encoded by `stamp`: the named fields take the new values, every
/// other field keeps its value, and no field is added or lost beside these.
pub open spec fn merges_update(new: DocModel, old: DocModel, fields: DocModel, stamp: u64) -> bool {
    &&& new.contains_key(updated_at_key()) && new[updated_at_key()] == Json::Num(stamp)
    &&& forall|k: Seq<char>|
        #[trigger] fields.contains_key(k) && k != updated_at_key() ==> new.contains_key(k) && new[k] == fields[k]
    &&& forall|k: Seq<char>|
        #[trigger] old.contains_key(k) && !fields.contains_key(k) && k != updated_at_key() ==> new.contains_key(k)
            && new[k] == old[k]
    &&& forall|k: Seq<char>|
        #[trigger] new.contains_key(k) ==> k == updated_at_key() || fields.contains_key(k) || old.contains_key(k)
}

/// Updating a document of a collection (a PUT) is a partial update: it fails
/// exactly when the document is missing; otherwise the document keeps every
/// field that the update does not name, takes the named ones, gets the
/// `_updated_at` stamp, and every other document stays as it was.
pub proof fn law_collection_update_is_partial(col: CollectionModel, id: Seq<char>, fields: DocModel, stamp: u64)
    ensures
        collection_update_outcome(col, id, fields, stamp) is Err <==> !col.contains_key(id),
        collection_update_outcome(col, id, fields, stamp) matches Ok(after) ==> {
            &&& after.dom() == col.dom()
            &&& merges_update(after[id], col[id], fields, stamp)
            &&& forall|id2: Seq<char>| #[trigger] col.contains_key(id2) && id2 != id ==> after[id2] == col[id2]
        },
{
    if let Ok(after) = collection_update_outcome(col, id, fields, stamp) {
        assert(after.dom() =~= col.dom());
    }
}

/// Updating a document of a database is the same partial update, in the
/// collection named.
pub proof fn law_update_is_partial(db: DatabaseModel, c: Seq<char>, id: Seq<char>, fields: DocModel, stamp: u64)
    ensures
        update_outcome(db, c, id, fields, stamp) matches Ok(after) ==> {
            &&& after.dom() == db.dom()
            &&& after[c].dom() == db[c].dom()
            &&& merges_update(after[c][id], db[c][id], fields, stamp)
            &&& forall|c2: Seq<char>| #[trigger] db.contains_key(c2) && c2 != c ==> after[c2] == db[c2]
            &&& forall|id2: Seq<char>| #[trigger] db[c].contains_key(id2) && id2 != id ==> after[c][id2] == db[c][id2]
        },
{
    if let Ok(after) = update_outcome(db, c, id, fields, stamp) {
        assert(after.dom() =~= db.dom());
        assert(after[c].dom() =~= db[c].dom());
    }
}

/// The strict operators are strict and the order operators complement each
/// other: no value is `>` or `<` itself, `>` holds exactly when `<=` does
/// not, `<` exactly when `>=` does not, `>` and `<` never hold together, and
/// values that are `==` are neither `>` nor `<` one another.
pub proof fn law_strict_operators(a: Json, b: Json)
    ensures
        !op_holds(a, WhereOp::GreaterThan, a),
        !op_holds(a, WhereOp::LessThan, a),
        op_holds(a, WhereOp::GreaterThan, b) <==> !op_holds(a, WhereOp::LessThanOrEqual, b),
        op_holds(a, WhereOp::LessThan, b) <==> !op_holds(a, WhereOp::GreaterThanOrEqual, b),
        !(op_holds(a, WhereOp::GreaterThan, b) && op_holds(a, WhereOp::LessThan, b)),
        op_holds(a, WhereOp::Equal, b) ==> !op_holds(a, WhereOp::GreaterThan, b) && !op_holds(a, WhereOp::LessThan, b),
{
    crate::compare::lemma_sort_order_reflexive(a);
    lemma_equal_values_sort_alike(a, b);
}

/// Values that are `==` sort as equal.
pub proof fn lemma_equal_values_sort_alike(a: Json, b: Json)
    ensures
        json_eq(a, b) ==> sort_order(a, b) == Ordering::Equal,
{
    if json_eq(a, b) {
        match (a, b) {
            (Json::Arr(x), Json::Arr(y)) => {
                assert(x.len() == y.len());
            },
            (Json::Obj(x), Json::Obj(y)) => {
                assert(x.len() == y.len());
            },
            _ => {},
        }
    }
}

/// A query applies all of its filters: every document it returns is a
/// document of the collection whose field named by each filter (every one of
/// them, not only some) exists and compares to the filter's operand by the
/// filter's operator; and, without offset and limit, every document of the
/// collection that passes all the filters is returned.
pub proof fn law_query_applies_every_filter(r: Seq<(String, Document)>, col: CollectionModel, q: Query)
    requires
        query_result(r, col, q),
    ensures
        forall|j: int| 0 <= j < r.len() ==> col.contains_key((#[trigger] r[j]).0@) && col[r[j].0@] == r[j].1@,
        forall|j: int, i: int|
            #![trigger r[j], query_filters(q)[i]]
            0 <= j < r.len() && 0 <= i < query_filters(q).len() ==> r[j].1@.contains_key(query_filters(q)[i].field@)
                && op_holds(r[j].1@[query_filters(q)[i].field@], query_filters(q)[i].op, query_filters(q)[i].value@),
        q.offset is None && q.limit is None ==> forall|k: Seq<char>|
            #[trigger] col.contains_key(k) && (forall|i: int|
                0 <= i < query_filters(q).len() ==> col[k].contains_key((#[trigger] query_filters(q)[i]).field@)
                    && op_holds(col[k][query_filters(q)[i].field@], query_filters(q)[i].op, query_filters(q)[i].value@))
                ==> exists|j: int| 0 <= j < r.len() && #[trigger] r[j].0@ == k,
{
    let fs = query_filters(q);
    let m = matching(col, fs);
    let s = choose|s: Seq<(String, Document)>| arranged(s, m, q.order_by) && r == #[trigger] window(s, q.offset, q.limit);
    law_results_pass_filters(s, col, fs, q.order_by, q.offset, q.limit);
    assert forall|j: int, i: int|
        #![trigger r[j], fs[i]]
        0 <= j < r.len() && 0 <= i < fs.len() implies r[j].1@.contains_key(fs[i].field@) && op_holds(
            r[j].1@[fs[i].field@],
            fs[i].op,
            fs[i].value@,
        ) by {
        assert(filters_hold(r[j].1@, fs));
        assert(crate::query::filter_holds(r[j].1@, fs[i]));
    }
    if q.offset is None && q.limit is None {
        assert(r == s);
        assert forall|k: Seq<char>|
            #[trigger] col.contains_key(k) && (forall|i: int|
                0 <= i < fs.len() ==> col[k].contains_key((#[trigger] fs[i]).field@) && op_holds(
                    col[k][fs[i].field@],
                    fs[i].op,
                    fs[i].value@,
                )) implies exists|j: int| 0 <= j < r.len() && #[trigger] r[j].0@ == k by {
            assert forall|i: int| 0 <= i < fs.len() implies crate::query::filter_holds(col[k], #[trigger] fs[i]) by {
            }
            assert(filters_hold(col[k], fs));
            assert(m.contains_key(k));
        }
    }
}

/// Numbers sort by the values they stand for: for numbers that are not NaN
/// the order is `f64::partial_cmp` of the two values, and a negative number
/// other than −0 sorts before every number that is not negative.
pub proof fn law_numbers_sort_by_value(x: u64, y: u64)
    requires
        !f64_is_nan(x),
        !f64_is_nan(y),
    ensures
        f64_partial_cmp(x, y) == Some(sort_order(Json::Num(x), Json::Num(y))),
        f64_negative(x) && f64_magnitude(x) != 0 && !f64_negative(y) ==> sort_order(Json::Num(x), Json::Num(y))
            == Ordering::Less,
{
}

/// Whole numbers below 2^53 sort as the integers they are, their negations
/// sort in the reverse order, and every such negation sorts before every such
/// positive number.
pub proof fn law_whole_numbers_sort_as_integers(bx: u64, by: u64, n: nat, m: nat)
    requires
        f64_encodes_int(bx, n),
        f64_encodes_int(by, m),
    ensures
        sort_order(Json::Num(bx), Json::Num(by)) == nat_order(n, m),
        sort_order(Json::Num(with_sign_bit(bx)), Json::Num(with_sign_bit(by))) == nat_order(m, n),
        sort_order(Json::Num(with_sign_bit(bx)), Json::Num(by)) == Ordering::Less,
{
    lemma_encodes_int_order(bx, by, n, m);
    lemma_encodes_int_order(by, bx, m, n);
    assert(bx > 0 && by > 0);
}

} // verus!
