//! The query engine: filters, ordering, offset and limit over the documents
//! of a collection.

use vstd::prelude::*;

use std::cmp::Ordering;

use crate::compare::{
    compare_for_sort, compare_values, lemma_sort_order_antisymmetric, lemma_sort_order_transitive,
    op_holds, reversed, sort_order, sortable, WhereOp,
};
use crate::document::{
    collection_not_found, collection_not_found_error, lists_documents, Collection, CollectionModel,
    Database, DocModel, Document,
};
use crate::key_map::lemma_entries_map_index;
use crate::keys::{key_lt, lemma_key_lt_strict_total};
use crate::value::{Json, Value};

verus! {

/// A filter: the field `field` exists and compares to `value` by `op`.
#[derive(Debug, Clone)]
pub struct WhereFilter {
    pub field: String,
    pub op: WhereOp,
    pub value: Value,
}

#[derive(Clone, Copy, Debug, PartialEq, Eq)]
pub enum OrderDirection {
    Ascending,
    Descending,
}

/// Results are sorted by the value of `field` (a missing field counts as null).
#[derive(Debug, Clone)]
pub struct OrderBy {
    pub field: String,
    pub direction: OrderDirection,
}

/// A query: filters that every result passes, an optional order (by id
/// otherwise), and a window of `offset` skipped results and at most `limit`.
#[derive(Debug, Clone)]
pub struct Query {
    pub filters: Option<Vec<WhereFilter>>,
    pub order_by: Option<OrderBy>,
    pub limit: Option<usize>,
    pub offset: Option<usize>,
}

pub open spec fn filter_holds(d: DocModel, f: WhereFilter) -> bool {
    d.contains_key(f.field@) && op_holds(d[f.field@], f.op, f.value@)
}

pub open spec fn filters_hold(d: DocModel, fs: Seq<WhereFilter>) -> bool {
    forall|i: int| 0 <= i < fs.len() ==> filter_holds(d, #[trigger] fs[i])
}

pub open spec fn query_filters(q: Query) -> Seq<WhereFilter> {
    match q.filters {
        Some(v) => v@,
        None => Seq::empty(),
    }
}

/// The documents of `col` that pass every filter.
pub open spec fn matching(col: CollectionModel, fs: Seq<WhereFilter>) -> CollectionModel {
    Map::new(|k: Seq<char>| col.contains_key(k) && filters_hold(col[k], fs), |k: Seq<char>| col[k])
}

/// The value by which a document is sorted.
pub open spec fn sort_key(d: DocModel, field: Seq<char>) -> Json {
    if d.contains_key(field) {
        d[field]
    } else {
        Json::Null
    }
}

pub open spec fn directed(o: Ordering, dir: OrderDirection) -> Ordering {
    match dir {
        OrderDirection::Ascending => o,
        OrderDirection::Descending => reversed(o),
    }
}

/// Whether result `a` comes before result `b`: by the sort value in the
/// direction asked, results with equal sort values by id; by id when no
/// order is asked.
pub open spec fn placed_before(a: (String, Document), b: (String, Document), order: Option<OrderBy>) -> bool {
    match order {
        None => key_lt(a.0@, b.0@),
        Some(o) => {
            let c = directed(sort_order(sort_key(a.1@, o.field@), sort_key(b.1@, o.field@)), o.direction);
            c == Ordering::Less || (c == Ordering::Equal && key_lt(a.0@, b.0@))
        },
    }
}

/// Whether a document with fields `dx` sorts strictly before one with `dy`.
pub open spec fn sorts_before(dx: DocModel, dy: DocModel, order: OrderBy) -> bool {
    directed(sort_order(sort_key(dx, order.field@), sort_key(dy, order.field@)), order.direction)
        == Ordering::Less
}

/// Whether document `x` sorts strictly before document `y`.
fn doc_sorts_before(x: &Document, y: &Document, order: &OrderBy) -> (r: bool)
    ensures
        r == sorts_before(x@, y@, *order),
{
    let null = Value::Null;
    let kx = sort_value(x, order.field.as_str(), &null);
    let ky = sort_value(y, order.field.as_str(), &null);
    let c = compare_for_sort(kx, ky);
    match order.direction {
        OrderDirection::Ascending => match c {
            Ordering::Less => true,
            _ => false,
        },
        OrderDirection::Descending => match c {
            Ordering::Greater => true,
            _ => false,
        },
    }
}

/// `s` holds every document of `m` once, with its id.
pub open spec fn lists_unordered(s: Seq<(String, Document)>, m: CollectionModel) -> bool {
    &&& forall|i: int, j: int| 0 <= i < j < s.len() ==> (#[trigger] s[i]).0@ != (#[trigger] s[j]).0@
    &&& forall|i: int| 0 <= i < s.len() ==> m.contains_key((#[trigger] s[i]).0@) && m[s[i].0@] == s[i].1@
    &&& forall|k: Seq<char>| #[trigger] m.contains_key(k) ==> exists|i: int| 0 <= i < s.len() && #[trigger] s[i].0@ == k
}

/// No sort value of `s` is a NaN number (on such results the order is total).
pub open spec fn keys_sortable(s: Seq<(String, Document)>, order: Option<OrderBy>) -> bool {
    match order {
        None => true,
        Some(o) => forall|i: int| 0 <= i < s.len() ==> sortable(sort_key((#[trigger] s[i]).1@, o.field@)),
    }
}

/// `s` is the documents of `m` arranged in the order asked.
pub open spec fn arranged(s: Seq<(String, Document)>, m: CollectionModel, order: Option<OrderBy>) -> bool {
    &&& lists_unordered(s, m)
    &&& keys_sortable(s, order) ==> forall|i: int, j: int|
        0 <= i < j < s.len() ==> placed_before(#[trigger] s[i], #[trigger] s[j], order)
}

/// Skips `offset` results, then keeps at most `limit`.
pub open spec fn window<A>(s: Seq<A>, offset: Option<usize>, limit: Option<usize>) -> Seq<A> {
    let t = match offset {
        Some(o) => if o < s.len() {
            s.subrange(o as int, s.len() as int)
        } else {
            Seq::empty()
        },
        None => s,
    };
    match limit {
        Some(l) => if l < t.len() {
            t.subrange(0, l as int)
        } else {
            t
        },
        None => t,
    }
}

/// The results of `q` on a collection `col`.
pub open spec fn query_result(
    r: Seq<(String, Document)>,
    col: CollectionModel,
    q: Query,
) -> bool {
    exists|s: Seq<(String, Document)>|
        arranged(s, matching(col, query_filters(q)), q.order_by) && r == #[trigger] window(s, q.offset, q.limit)
}

/// Whether `doc` passes every filter of `filters`.
pub fn passes_filters(doc: &Document, filters: &Vec<WhereFilter>) -> (r: bool)
    ensures
        r == filters_hold(doc@, filters@),
{
    let n = filters.len();
    let mut i: usize = 0;
    while i < n
        invariant
            n == filters@.len(),
            i <= n,
            forall|j: int| 0 <= j < i ==> filter_holds(doc@, #[trigger] filters@[j]),
        decreases n - i,
    {
        let f = &filters[i];
        let pass = match doc.fields.get(f.field.as_str()) {
            Some(v) => compare_values(v, &f.op, &f.value),
            None => false,
        };
        if !pass {
            assert(!filter_holds(doc@, filters@[i as int]));
            return false;
        }
        i = i + 1;
    }
    true
}

/// Copies of the documents of `col` that pass `filters`, sorted by id.
#[verifier::rlimit(40)]
pub fn filtered_listing(col: &Collection, filters: &Option<Vec<WhereFilter>>) -> (v: Vec<(String, Document)>)
    ensures
        lists_documents(
            v@,
            matching(
                col@,
                match filters {
                    Some(f) => f@,
                    None => Seq::empty(),
                },
            ),
        ),
{
    let ghost fs = match filters {
        Some(f) => f@,
        None => Seq::<WhereFilter>::empty(),
    };
    let ghost m = matching(col@, fs);
    let es = col.documents.entries();
    let n = es.len();
    let mut v: Vec<(String, Document)> = Vec::new();
    let mut i: usize = 0;
    while i < n
        invariant
            n == es@.len(),
            es@ == col.documents.spec_entries(),
            crate::key_map::entries_sorted(es@),
            crate::key_map::entries_map(es@) == col.documents@,
            m == matching(col@, fs),
            fs == (match filters {
                Some(f) => f@,
                None => Seq::<WhereFilter>::empty(),
            }),
            i <= n,
            forall|a: int, b: int| 0 <= a < b < v@.len() ==> key_lt(#[trigger] v@[a].0@, #[trigger] v@[b].0@),
            forall|a: int| 0 <= a < v@.len() ==> m.contains_key((#[trigger] v@[a]).0@) && m[v@[a].0@] == v@[a].1@,
            forall|a: int| 0 <= a < v@.len() ==> exists|j: int| 0 <= j < i && (#[trigger] v@[a]).0@ == es@[j].0@,
            forall|j: int| 0 <= j < i && m.contains_key(#[trigger] es@[j].0@) ==> exists|a: int| 0 <= a < v@.len() && #[trigger] v@[a].0@ == es@[j].0@,
        decreases n - i,
    {
        proof {
            lemma_entries_map_index(es@, i as int);
        }
        let pass = match filters {
            Some(f) => passes_filters(&es[i].1, f),
            None => true,
        };
        let ghost vb = v@;
        if pass {
            let id = es[i].0.clone();
            let d = es[i].1.copy();
            proof {
                assert forall|a: int| 0 <= a < vb.len() implies key_lt(#[trigger] vb[a].0@, es@[i as int].0@) by {
                    let j = choose|j: int| 0 <= j < i && vb[a].0@ == es@[j].0@;
                    assert(key_lt(es@[j].0@, es@[i as int].0@));
                }
            }
            v.push((id, d));
            proof {
                assert(v@.last().0@ == es@[i as int].0@);
                assert forall|a: int| 0 <= a < v@.len() implies exists|j: int| 0 <= j < i + 1 && (#[trigger] v@[a]).0@ == es@[j].0@ by {
                    if a < vb.len() {
                        assert(v@[a] == vb[a]);
                    } else {
                        assert(v@[a].0@ == es@[i as int].0@);
                    }
                }
                assert forall|j: int| 0 <= j < i + 1 && m.contains_key(#[trigger] es@[j].0@) implies exists|a: int| 0 <= a < v@.len() && #[trigger] v@[a].0@ == es@[j].0@ by {
                    if j < i {
                        let a = choose|a: int| 0 <= a < vb.len() && #[trigger] vb[a].0@ == es@[j].0@;
                        assert(v@[a] == vb[a]);
                    } else {
                        assert(v@[vb.len() as int].0@ == es@[j].0@);
                    }
                }
            }
        } else {
            proof {
                assert(!m.contains_key(es@[i as int].0@));
            }
        }
        i = i + 1;
    }
    proof {
        assert forall|k: Seq<char>| #[trigger] m.contains_key(k) implies exists|a: int| 0 <= a < v@.len() && #[trigger] v@[a].0@ == k by {
            let j = choose|j: int| 0 <= j < es@.len() && #[trigger] es@[j].0@ == k;
            assert(m.contains_key(es@[j].0@));
        }
    }
    v
}

/// The value by which `d` is sorted on `field`; `null` stands in for a
/// missing field.
fn sort_value<'a>(d: &'a Document, field: &str, null: &'a Value) -> (r: &'a Value)
    requires
        *null == Value::Null,
    ensures
        r@ == sort_key(d@, field@),
{
    match d.fields.get(field) {
        Some(v) => v,
        None => null,
    }
}

/// `placed_before` is a strict order on results whose sort values are not NaN.
pub proof fn lemma_placed_before_transitive(
    a: (String, Document),
    b: (String, Document),
    c: (String, Document),
    order: Option<OrderBy>,
)
    requires
        placed_before(a, b, order),
        placed_before(b, c, order),
        order matches Some(o) ==> sortable(sort_key(a.1@, o.field@)) && sortable(sort_key(b.1@, o.field@))
            && sortable(sort_key(c.1@, o.field@)),
    ensures
        placed_before(a, c, order),
{
    lemma_key_lt_strict_total(a.0@, b.0@, c.0@);
    if let Some(o) = order {
        let ka = sort_key(a.1@, o.field@);
        let kb = sort_key(b.1@, o.field@);
        let kc = sort_key(c.1@, o.field@);
        lemma_sort_order_antisymmetric(ka, kb);
        lemma_sort_order_antisymmetric(kb, kc);
        lemma_sort_order_antisymmetric(ka, kc);
        match o.direction {
            OrderDirection::Ascending => {
                lemma_sort_order_transitive(ka, kb, kc);
            },
            OrderDirection::Descending => {
                lemma_sort_order_transitive(kc, kb, ka);
            },
        }
    }
}

spec fn hits(perm: Seq<int>, n: int, j: int) -> bool {
    exists|a: int| 0 <= a < n && #[trigger] perm[a] == j
}

/// Sorts a listing by the order asked; results with equal sort values keep
/// their order (by id).
pub fn sort_listing(v: Vec<(String, Document)>, order: &OrderBy) -> (r: Vec<(String, Document)>)
    requires
        forall|a: int, b: int| 0 <= a < b < v@.len() ==> key_lt(#[trigger] v@[a].0@, #[trigger] v@[b].0@),
    ensures
        r@.len() == v@.len(),
        forall|a: int, b: int| 0 <= a < b < r@.len() ==> (#[trigger] r@[a]).0@ != (#[trigger] r@[b]).0@,
        forall|a: int| 0 <= a < r@.len() ==> exists|j: int| 0 <= j < v@.len() && #[trigger] r@[a] == v@[j],
        forall|j: int| 0 <= j < v@.len() ==> exists|a: int| 0 <= a < r@.len() && r@[a] == #[trigger] v@[j],
        keys_sortable(v@, Some(*order)) ==> forall|a: int, b: int|
            0 <= a < b < r@.len() ==> placed_before(#[trigger] r@[a], #[trigger] r@[b], Some(*order)),
{
    let ghost input = v@;
    let ghost ord = Some(*order);
    let mut rest = v;
    let mut out: Vec<(String, Document)> = Vec::new();
    let ghost mut perm: Seq<int> = Seq::empty();
    let n = rest.len();
    proof {
        assert(input.take(0) =~= Seq::<(String, Document)>::empty());
    }
    // Takes the elements in id order: reverses the listing, then pops.
    let mut pending: Vec<(String, Document)> = Vec::new();
    while rest.len() > 0
        invariant
            rest@.len() + pending@.len() == n,
            n == input.len(),
            rest@ == input.take(rest@.len() as int),
            forall|j: int| 0 <= j < pending@.len() ==> #[trigger] pending@[j] == input[n - 1 - j],
        decreases rest@.len(),
    {
        let e = rest.pop().unwrap();
        pending.push(e);
        proof {
            assert(rest@ =~= input.take(rest@.len() as int));
        }
    }
    let mut i: usize = 0;
    while pending.len() > 0
        invariant
            n == input.len(),
            pending@.len() + i == n,
            forall|j: int| 0 <= j < pending@.len() ==> #[trigger] pending@[j] == input[n - 1 - j],
            forall|a: int, b: int| 0 <= a < b < input.len() ==> key_lt(#[trigger] input[a].0@, #[trigger] input[b].0@),
            ord == Some(*order),
            out@.len() == i,
            perm.len() == i,
            forall|a: int| 0 <= a < i ==> 0 <= #[trigger] perm[a] < i && out@[a] == input[perm[a]],
            forall|a: int, b: int| 0 <= a < b < i ==> #[trigger] perm[a] != #[trigger] perm[b],
            forall|j: int| 0 <= j < i ==> #[trigger] hits(perm, i as int, j),
            keys_sortable(input, ord) ==> forall|a: int, b: int|
                0 <= a < b < out@.len() ==> placed_before(#[trigger] out@[a], #[trigger] out@[b], ord),
        decreases pending@.len(),
    {
        let x = pending.pop().unwrap();
        assert(x == input[i as int]);
        let mut p = out.len();
        while p > 0
            invariant
                p <= out@.len(),
                out@.len() == i,
                ord == Some(*order),
                forall|q: int| p <= q < out@.len() ==> sorts_before(x.1@, (#[trigger] out@[q]).1@, *order),
            ensures
                p <= out@.len(),
                forall|q: int| p <= q < out@.len() ==> sorts_before(x.1@, (#[trigger] out@[q]).1@, *order),
                p == 0 || !sorts_before(x.1@, out@[p - 1].1@, *order),
            decreases p,
        {
            if doc_sorts_before(&x.1, &out[p - 1].1, order) {
                p = p - 1;
            } else {
                break;
            }
        }
        let ghost ob = out@;
        let ghost pb = perm;
        proof {
            assert forall|a: int| 0 <= a < i implies key_lt(#[trigger] ob[a].0@, x.0@) by {
                assert(perm[a] < i);
                assert(key_lt(input[perm[a]].0@, input[i as int].0@));
            }
            if keys_sortable(input, ord) {
                let fx = sort_key(x.1@, order.field@);
                assert(sortable(sort_key(input[i as int].1@, order.field@)));
                assert forall|a: int| 0 <= a < i implies sortable(sort_key((#[trigger] ob[a]).1@, order.field@)) by {
                    assert(sortable(sort_key(input[perm[a]].1@, order.field@)));
                }
                if p > 0 {
                    let y = ob[p - 1];
                    let fy = sort_key(y.1@, order.field@);
                    lemma_sort_order_antisymmetric(fx, fy);
                    assert(placed_before(y, x, ord));
                    assert forall|a: int| 0 <= a < p implies placed_before(#[trigger] ob[a], x, ord) by {
                        if a < p - 1 {
                            lemma_placed_before_transitive(ob[a], y, x, ord);
                        }
                    }
                }
                assert forall|a: int| p <= a < i implies placed_before(x, #[trigger] ob[a], ord) by {
                }
            }
        }
        out.insert(p, x);
        proof {
            perm = pb.insert(p as int, i as int);
            assert forall|a: int| 0 <= a < i + 1 implies 0 <= #[trigger] perm[a] < i + 1 && out@[a] == input[perm[a]] by {
                if a < p {
                    assert(perm[a] == pb[a]);
                } else if a > p {
                    assert(perm[a] == pb[a - 1]);
                }
            }
            assert forall|a: int, b: int| 0 <= a < b < i + 1 implies #[trigger] perm[a] != #[trigger] perm[b] by {
                if a < p && b < p {
                    assert(pb[a] != pb[b]);
                } else if a < p && b > p {
                    assert(pb[a] != pb[b - 1]);
                } else if a > p && b > p {
                    assert(pb[a - 1] != pb[b - 1]);
                } else if a == p {
                    if b > p {
                        assert(pb[b - 1] < i);
                    }
                } else {
                    assert(pb[a] < i);
                }
            }
            assert forall|j: int| 0 <= j < i + 1 implies #[trigger] hits(perm, i + 1, j) by {
                if j == i {
                    assert(perm[p as int] == j);
                } else {
                    assert(hits(pb, i as int, j));
                    let a = choose|a: int| 0 <= a < i && #[trigger] pb[a] == j;
                    if a < p {
                        assert(perm[a] == j);
                    } else {
                        assert(perm[a + 1] == j);
                    }
                }
            }
            if keys_sortable(input, ord) {
                assert forall|a: int, b: int| 0 <= a < b < out@.len() implies placed_before(
                    #[trigger] out@[a],
                    #[trigger] out@[b],
                    ord,
                ) by {
                    if b < p {
                        assert(out@[a] == ob[a] && out@[b] == ob[b]);
                    } else if b == p {
                        assert(out@[a] == ob[a]);
                    } else if a < p {
                        assert(out@[a] == ob[a] && out@[b] == ob[b - 1]);
                    } else if a == p {
                        assert(out@[b] == ob[b - 1]);
                    } else {
                        assert(out@[a] == ob[a - 1] && out@[b] == ob[b - 1]);
                    }
                }
            }
        }
        i = i + 1;
    }
    proof {
        assert forall|a: int, b: int| 0 <= a < b < out@.len() implies (#[trigger] out@[a]).0@ != (#[trigger] out@[b]).0@ by {
            let pa = perm[a];
            let pb2 = perm[b];
            assert(pa != pb2);
            if pa < pb2 {
                lemma_key_lt_strict_total(input[pa].0@, input[pb2].0@, input[pb2].0@);
            } else {
                lemma_key_lt_strict_total(input[pb2].0@, input[pa].0@, input[pa].0@);
            }
        }
        assert forall|a: int| 0 <= a < out@.len() implies exists|j: int| 0 <= j < input.len() && #[trigger] out@[a] == input[j] by {
            assert(out@[a] == input[perm[a]]);
        }
        assert forall|j: int| 0 <= j < input.len() implies exists|a: int| 0 <= a < out@.len() && out@[a] == #[trigger] input[j] by {
            assert(hits(perm, i as int, j));
            let a = choose|a: int| 0 <= a < i && #[trigger] perm[a] == j;
            assert(out@[a] == input[j]);
        }
    }
    out
}

/// Skips `offset` results, then keeps at most `limit`.
pub fn apply_window<A>(v: Vec<A>, offset: Option<usize>, limit: Option<usize>) -> (r: Vec<A>)
    ensures
        r@ == window(v@, offset, limit),
{
    let mut v = v;
    if let Some(off) = offset {
        if off < v.len() {
            v = v.split_off(off);
        } else {
            v.clear();
        }
    }
    if let Some(lim) = limit {
        v.truncate(lim);
    }
    v
}

/// Runs `query` on the documents of `col`.
pub fn run_query(col: &Collection, query: Query) -> (r: Vec<(String, Document)>)
    ensures
        query_result(r@, col@, query),
{
    let ghost m = matching(col@, query_filters(query));
    let listed = filtered_listing(col, &query.filters);
    let ghost l = listed@;
    let ordered = match &query.order_by {
        Some(o) => sort_listing(listed, o),
        None => listed,
    };
    let ghost s = ordered@;
    proof {
        match query.order_by {
            Some(o) => {
                assert forall|i: int| 0 <= i < s.len() implies m.contains_key((#[trigger] s[i]).0@) && m[s[i].0@]
                    == s[i].1@ by {
                    let j = choose|j: int| 0 <= j < l.len() && #[trigger] s[i] == l[j];
                }
                assert forall|k: Seq<char>| #[trigger] m.contains_key(k) implies exists|i: int|
                    0 <= i < s.len() && #[trigger] s[i].0@ == k by {
                    let j = choose|j: int| 0 <= j < l.len() && #[trigger] l[j].0@ == k;
                    let i = choose|i: int| 0 <= i < s.len() && s[i] == #[trigger] l[j];
                    assert(s[i].0@ == k);
                }
                if keys_sortable(s, query.order_by) {
                    assert forall|j: int| 0 <= j < l.len() implies sortable(sort_key((#[trigger] l[j]).1@, o.field@)) by {
                        let i = choose|i: int| 0 <= i < s.len() && s[i] == #[trigger] l[j];
                        assert(sortable(sort_key(s[i].1@, o.field@)));
                    }
                }
            },
            None => {
                assert forall|a: int, b: int| 0 <= a < b < s.len() implies (#[trigger] s[a]).0@ != (#[trigger] s[b]).0@ by {
                    lemma_key_lt_strict_total(s[a].0@, s[b].0@, s[b].0@);
                }
            },
        }
        assert(arranged(s, m, query.order_by));
    }
    let r = apply_window(ordered, query.offset, query.limit);
    assert(r@ == window(s, query.offset, query.limit));
    r
}

impl Collection {
    /// Runs `query` on the documents.
    pub fn execute_query(&self, query: Query) -> (r: Vec<(String, Document)>)
        ensures
            query_result(r@, self@, query),
    {
        run_query(self, query)
    }
}

impl Database {
    /// Runs `query` on collection `collection_name`.
    pub fn execute_query(&self, collection_name: &str, query: Query) -> (r: Result<Vec<(String, Document)>, String>)
        ensures
            match r {
                Ok(v) => self@.contains_key(collection_name@) && query_result(v@, self@[collection_name@], query),
                Err(e) => !self@.contains_key(collection_name@) && e@ == collection_not_found(collection_name@),
            },
    {
        match self.get_collection(collection_name) {
            Some(col) => Ok(run_query(col, query)),
            None => Err(collection_not_found_error(collection_name)),
        }
    }
}

} // verus!
