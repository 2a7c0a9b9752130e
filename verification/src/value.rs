//! JSON-like values of document fields, their mathematical model, equality
//! and the ordering used to sort query results.

use vstd::prelude::*;


use crate::key_map::{entries_sorted, KeyMap};
use crate::keys::{compare_keys, key_lt, KeyOrder};
use crate::number::{f64_eq, number_eq};

verus! {

/// A field value. Numbers are binary64 values held as their bit encodings.
/// Objects keep their fields sorted by key.
#[derive(Debug)]
pub enum Value {
    Null,
    Boolean(bool),
    Number(u64),
    String(String),
    Array(Vec<Value>),
    Object(KeyMap<Value>),
}

/// The mathematical model of a value. An object is its sequence of
/// (key, value) pairs in ascending key order.
pub enum Json {
    Null,
    Bool(bool),
    Num(u64),
    Str(Seq<char>),
    Arr(Seq<Json>),
    Obj(Seq<(Seq<char>, Json)>),
}

pub open spec fn value_model(v: Value) -> Json
    decreases v, 1nat,
{
    match v {
        Value::Null => Json::Null,
        Value::Boolean(b) => Json::Bool(b),
        Value::Number(n) => Json::Num(n),
        Value::String(s) => Json::Str(s@),
        Value::Array(a) => {
            proof {
                assert(decreases_to!(a => a@));
            }
            Json::Arr(values_model(a@))
        },
        Value::Object(m) => {
            proof {
                KeyMap::<Value>::lemma_entries_decrease(m);
            }
            Json::Obj(fields_model(m.spec_entries()))
        },
    }
}

pub open spec fn values_model(s: Seq<Value>) -> Seq<Json>
    decreases s, 0nat,
{
    if s.len() == 0 {
        Seq::empty()
    } else {
        values_model(s.drop_last()).push(value_model(s.last()))
    }
}

pub open spec fn fields_model(s: Seq<(String, Value)>) -> Seq<(Seq<char>, Json)>
    decreases s, 0nat,
{
    if s.len() == 0 {
        Seq::empty()
    } else {
        proof {
            assert(decreases_to!(s => s[s.len() - 1]));
        }
        fields_model(s.drop_last()).push((s.last().0@, value_model(s.last().1)))
    }
}

impl View for Value {
    type V = Json;

    open spec fn view(&self) -> Json {
        value_model(*self)
    }
}

pub proof fn lemma_values_model(s: Seq<Value>)
    ensures
        values_model(s).len() == s.len(),
        forall|i: int| 0 <= i < s.len() ==> #[trigger] values_model(s)[i] == value_model(s[i]),
    decreases s.len(),
{
    if s.len() > 0 {
        lemma_values_model(s.drop_last());
        assert forall|i: int| 0 <= i < s.len() implies #[trigger] values_model(s)[i] == value_model(s[i]) by {
            if i < s.len() - 1 {
                assert(s.drop_last()[i] == s[i]);
            }
        }
    }
}

pub proof fn lemma_fields_model(s: Seq<(String, Value)>)
    ensures
        fields_model(s).len() == s.len(),
        forall|i: int|
            0 <= i < s.len() ==> #[trigger] fields_model(s)[i] == (s[i].0@, value_model(s[i].1)),
    decreases s.len(),
{
    if s.len() > 0 {
        lemma_fields_model(s.drop_last());
        assert forall|i: int| 0 <= i < s.len() implies #[trigger] fields_model(s)[i] == (
        s[i].0@,
        value_model(s[i].1),
        ) by {
            if i < s.len() - 1 {
                assert(s.drop_last()[i] == s[i]);
            }
        }
    }
}

/// Equality of values as the original `==` on values decides it: numbers as
/// `f64` (NaN equals nothing), arrays element by element, objects key by key.
pub open spec fn json_eq(a: Json, b: Json) -> bool
    decreases a, 1nat,
{
    match a {
        Json::Null => b is Null,
        Json::Bool(x) => b matches Json::Bool(y) && x == y,
        Json::Num(x) => b matches Json::Num(y) && f64_eq(x, y),
        Json::Str(x) => b matches Json::Str(y) && x == y,
        Json::Arr(x) => b matches Json::Arr(y) && json_seq_eq(x, y),
        Json::Obj(x) => b matches Json::Obj(y) && json_fields_eq(x, y),
    }
}

pub open spec fn json_seq_eq(x: Seq<Json>, y: Seq<Json>) -> bool
    decreases x, 0nat,
{
    if x.len() != y.len() {
        false
    } else if x.len() == 0 {
        true
    } else {
        json_seq_eq(x.drop_last(), y.drop_last()) && json_eq(x.last(), y.last())
    }
}

pub open spec fn json_fields_eq(x: Seq<(Seq<char>, Json)>, y: Seq<(Seq<char>, Json)>) -> bool
    decreases x, 0nat,
{
    if x.len() != y.len() {
        false
    } else if x.len() == 0 {
        true
    } else {
        proof {
            assert(decreases_to!(x => x[x.len() - 1]));
        }
        json_fields_eq(x.drop_last(), y.drop_last()) && x.last().0 == y.last().0 && json_eq(
            x.last().1,
            y.last().1,
        )
    }
}

pub proof fn lemma_json_seq_eq(x: Seq<Json>, y: Seq<Json>)
    ensures
        json_seq_eq(x, y) <==> (x.len() == y.len() && forall|i: int|
            0 <= i < x.len() ==> json_eq(#[trigger] x[i], y[i])),
    decreases x.len(),
{
    if x.len() == y.len() && x.len() > 0 {
        lemma_json_seq_eq(x.drop_last(), y.drop_last());
        if forall|i: int| 0 <= i < x.len() ==> json_eq(#[trigger] x[i], y[i]) {
            assert forall|i: int| 0 <= i < x.drop_last().len() implies json_eq(
                #[trigger] x.drop_last()[i],
                y.drop_last()[i],
            ) by {
                assert(json_eq(x[i], y[i]));
            }
            assert(json_eq(x[x.len() - 1], y[y.len() - 1]));
        }
        if json_seq_eq(x, y) {
            assert forall|i: int| 0 <= i < x.len() implies json_eq(#[trigger] x[i], y[i]) by {
                if i < x.len() - 1 {
                    assert(json_eq(x.drop_last()[i], y.drop_last()[i]));
                }
            }
        }
    }
}

pub proof fn lemma_json_fields_eq(x: Seq<(Seq<char>, Json)>, y: Seq<(Seq<char>, Json)>)
    ensures
        json_fields_eq(x, y) <==> (x.len() == y.len() && forall|i: int|
            0 <= i < x.len() ==> (#[trigger] x[i]).0 == y[i].0 && json_eq(x[i].1, y[i].1)),
    decreases x.len(),
{
    if x.len() == y.len() && x.len() > 0 {
        lemma_json_fields_eq(x.drop_last(), y.drop_last());
        if forall|i: int| 0 <= i < x.len() ==> (#[trigger] x[i]).0 == y[i].0 && json_eq(x[i].1, y[i].1) {
            assert forall|i: int| 0 <= i < x.drop_last().len() implies (
            #[trigger] x.drop_last()[i]).0 == y.drop_last()[i].0 && json_eq(
                x.drop_last()[i].1,
                y.drop_last()[i].1,
            ) by {
                assert(x[i].0 == y[i].0 && json_eq(x[i].1, y[i].1));
            }
            assert(x[x.len() - 1].0 == y[x.len() - 1].0);
        }
        if json_fields_eq(x, y) {
            assert forall|i: int| 0 <= i < x.len() implies (#[trigger] x[i]).0 == y[i].0 && json_eq(
                x[i].1,
                y[i].1,
            ) by {
                if i < x.len() - 1 {
                    assert(x.drop_last()[i].0 == y.drop_last()[i].0 && json_eq(
                        x.drop_last()[i].1,
                        y.drop_last()[i].1,
                    ));
                }
            }
        }
    }
}

/// No number anywhere in the value is a NaN.
pub open spec fn nan_free(a: Json) -> bool
    decreases a, 1nat,
{
    match a {
        Json::Num(x) => !crate::number::f64_is_nan(x),
        Json::Arr(x) => nan_free_seq(x),
        Json::Obj(x) => nan_free_fields(x),
        _ => true,
    }
}

pub open spec fn nan_free_seq(x: Seq<Json>) -> bool
    decreases x, 0nat,
{
    x.len() == 0 || (nan_free_seq(x.drop_last()) && nan_free(x.last()))
}

pub open spec fn nan_free_fields(x: Seq<(Seq<char>, Json)>) -> bool
    decreases x, 0nat,
{
    if x.len() == 0 {
        true
    } else {
        proof {
            assert(decreases_to!(x => x[x.len() - 1]));
        }
        nan_free_fields(x.drop_last()) && nan_free(x.last().1)
    }
}

/// Every value without NaN equals itself (a NaN equals nothing, as in `f64`).
pub proof fn law_json_eq_reflexive(a: Json)
    requires
        nan_free(a),
    ensures
        json_eq(a, a),
    decreases a, 1nat,
{
    match a {
        Json::Num(x) => {
            assert(crate::number::f64_order_key(x) == crate::number::f64_order_key(x));
        },
        Json::Arr(x) => {
            lemma_json_seq_eq_reflexive(x);
        },
        Json::Obj(x) => {
            lemma_json_fields_eq_reflexive(x);
        },
        _ => {},
    }
}

proof fn lemma_json_seq_eq_reflexive(x: Seq<Json>)
    requires
        nan_free_seq(x),
    ensures
        json_seq_eq(x, x),
    decreases x, 0nat,
{
    if x.len() > 0 {
        lemma_json_seq_eq_reflexive(x.drop_last());
        law_json_eq_reflexive(x.last());
    }
}

proof fn lemma_json_fields_eq_reflexive(x: Seq<(Seq<char>, Json)>)
    requires
        nan_free_fields(x),
    ensures
        json_fields_eq(x, x),
    decreases x, 0nat,
{
    if x.len() > 0 {
        assert(decreases_to!(x => x[x.len() - 1]));
        lemma_json_fields_eq_reflexive(x.drop_last());
        law_json_eq_reflexive(x.last().1);
    }
}

/// The number `x` with the sign of a zero dropped: −0 and +0 are one number.
pub open spec fn unsigned_zero(x: u64) -> u64 {
    if crate::number::f64_magnitude(x) == 0 {
        0
    } else {
        x
    }
}

/// `a` with every −0 in it written as +0; nothing else changes.
pub open spec fn zeros_unsigned(a: Json) -> Json
    decreases a, 1nat,
{
    match a {
        Json::Num(x) => Json::Num(unsigned_zero(x)),
        Json::Arr(x) => Json::Arr(zeros_unsigned_seq(x)),
        Json::Obj(x) => Json::Obj(zeros_unsigned_fields(x)),
        _ => a,
    }
}

pub open spec fn zeros_unsigned_seq(x: Seq<Json>) -> Seq<Json>
    decreases x, 0nat,
{
    if x.len() == 0 {
        x
    } else {
        zeros_unsigned_seq(x.drop_last()).push(zeros_unsigned(x.last()))
    }
}

pub open spec fn zeros_unsigned_fields(x: Seq<(Seq<char>, Json)>) -> Seq<(Seq<char>, Json)>
    decreases x, 0nat,
{
    if x.len() == 0 {
        x
    } else {
        proof {
            assert(decreases_to!(x => x[x.len() - 1]));
        }
        zeros_unsigned_fields(x.drop_last()).push((x.last().0, zeros_unsigned(x.last().1)))
    }
}

proof fn lemma_zeros_unsigned_seq_len(x: Seq<Json>)
    ensures
        zeros_unsigned_seq(x).len() == x.len(),
    decreases x.len(),
{
    if x.len() > 0 {
        lemma_zeros_unsigned_seq_len(x.drop_last());
    }
}

proof fn lemma_zeros_unsigned_fields_len(x: Seq<(Seq<char>, Json)>)
    ensures
        zeros_unsigned_fields(x).len() == x.len(),
    decreases x.len(),
{
    if x.len() > 0 {
        lemma_zeros_unsigned_fields_len(x.drop_last());
    }
}

proof fn lemma_push_eq<A>(s1: Seq<A>, a: A, s2: Seq<A>, b: A)
    ensures
        (s1.push(a) == s2.push(b)) <==> (s1 == s2 && a == b),
{
    if s1.push(a) == s2.push(b) {
        assert(s1 =~= s1.push(a).drop_last());
        assert(s2 =~= s2.push(b).drop_last());
        assert(a == s1.push(a).last());
    }
}

/// Value equality is equality of the values up to the sign of zeros: two
/// values without NaN are `==` exactly when they are the same once every −0
/// in them is written as +0 (same kind, same booleans, same numbers, same
/// texts, same elements in the same order, same keys with equal values).
pub proof fn law_json_eq_is_identity_up_to_zero_sign(a: Json, b: Json)
    requires
        nan_free(a),
        nan_free(b),
    ensures
        json_eq(a, b) <==> zeros_unsigned(a) == zeros_unsigned(b),
    decreases a, 1nat,
{
    match (a, b) {
        (Json::Num(x), Json::Num(y)) => {
            let mx = crate::number::f64_magnitude(x);
            let my = crate::number::f64_magnitude(y);
            assert(x == mx || x == mx + crate::number::SIGN_BIT);
            assert(y == my || y == my + crate::number::SIGN_BIT);
        },
        (Json::Arr(x), Json::Arr(y)) => {
            lemma_zeros_unsigned_seq_identity(x, y);
        },
        (Json::Obj(x), Json::Obj(y)) => {
            lemma_zeros_unsigned_fields_identity(x, y);
        },
        _ => {},
    }
}

proof fn lemma_zeros_unsigned_seq_identity(x: Seq<Json>, y: Seq<Json>)
    requires
        nan_free_seq(x),
        nan_free_seq(y),
    ensures
        json_seq_eq(x, y) <==> zeros_unsigned_seq(x) == zeros_unsigned_seq(y),
    decreases x, 0nat,
{
    lemma_zeros_unsigned_seq_len(x);
    lemma_zeros_unsigned_seq_len(y);
    if x.len() == y.len() {
        if x.len() == 0 {
            assert(zeros_unsigned_seq(x) =~= zeros_unsigned_seq(y));
        } else {
            assert(decreases_to!(x => x[x.len() - 1]));
            lemma_zeros_unsigned_seq_identity(x.drop_last(), y.drop_last());
            law_json_eq_is_identity_up_to_zero_sign(x.last(), y.last());
            lemma_push_eq(
                zeros_unsigned_seq(x.drop_last()),
                zeros_unsigned(x.last()),
                zeros_unsigned_seq(y.drop_last()),
                zeros_unsigned(y.last()),
            );
        }
    }
}

proof fn lemma_zeros_unsigned_fields_identity(x: Seq<(Seq<char>, Json)>, y: Seq<(Seq<char>, Json)>)
    requires
        nan_free_fields(x),
        nan_free_fields(y),
    ensures
        json_fields_eq(x, y) <==> zeros_unsigned_fields(x) == zeros_unsigned_fields(y),
    decreases x, 0nat,
{
    lemma_zeros_unsigned_fields_len(x);
    lemma_zeros_unsigned_fields_len(y);
    if x.len() == y.len() {
        if x.len() == 0 {
            assert(zeros_unsigned_fields(x) =~= zeros_unsigned_fields(y));
        } else {
            assert(decreases_to!(x => x[x.len() - 1]));
            lemma_zeros_unsigned_fields_identity(x.drop_last(), y.drop_last());
            law_json_eq_is_identity_up_to_zero_sign(x.last().1, y.last().1);
            lemma_push_eq(
                zeros_unsigned_fields(x.drop_last()),
                (x.last().0, zeros_unsigned(x.last().1)),
                zeros_unsigned_fields(y.drop_last()),
                (y.last().0, zeros_unsigned(y.last().1)),
            );
        }
    }
}

/// Whether two values are equal (the `==` of the query operators).
pub fn values_equal(a: &Value, b: &Value) -> (r: bool)
    ensures
        r == json_eq(a@, b@),
    decreases a,
{
    match (a, b) {
        (Value::Null, Value::Null) => true,
        (Value::Boolean(x), Value::Boolean(y)) => *x == *y,
        (Value::Number(x), Value::Number(y)) => number_eq(*x, *y),
        (Value::String(x), Value::String(y)) => {
            match compare_keys(x.as_str(), y.as_str()) {
                KeyOrder::Equal => true,
                _ => false,
            }
        },
        (Value::Array(x), Value::Array(y)) => {
            proof {
                lemma_values_model(x@);
                lemma_values_model(y@);
                lemma_json_seq_eq(values_model(x@), values_model(y@));
            }
            if x.len() != y.len() {
                return false;
            }
            let n = x.len();
            let mut i: usize = 0;
            while i < n
                invariant
                    n == x@.len(),
                    n == y@.len(),
                    i <= n,
                    *a == Value::Array(*x),
                    *b == Value::Array(*y),
                    values_model(x@).len() == x@.len(),
                    values_model(y@).len() == y@.len(),
                    forall|j: int| 0 <= j < x@.len() ==> #[trigger] values_model(x@)[j] == value_model(x@[j]),
                    forall|j: int| 0 <= j < y@.len() ==> #[trigger] values_model(y@)[j] == value_model(y@[j]),
                    forall|j: int| 0 <= j < i ==> json_eq(#[trigger] values_model(x@)[j], values_model(y@)[j]),
                decreases n - i,
            {
                proof {
                    assert(decreases_to!(*a => (*a)->Array_0));
                    assert(decreases_to!(*x => x@));
                    assert(decreases_to!(x@ => x@[i as int]));
                }
                if !values_equal(&x[i], &y[i]) {
                    proof {
                        assert(!json_eq(values_model(x@)[i as int], values_model(y@)[i as int]));
                        lemma_json_seq_eq(values_model(x@), values_model(y@));
                    }
                    return false;
                }
                i = i + 1;
            }
            true
        },
        (Value::Object(x), Value::Object(y)) => {
            let xe = x.entries();
            let ye = y.entries();
            proof {
                lemma_fields_model(xe@);
                lemma_fields_model(ye@);
                lemma_json_fields_eq(fields_model(xe@), fields_model(ye@));
            }
            if xe.len() != ye.len() {
                return false;
            }
            let n = xe.len();
            let mut i: usize = 0;
            while i < n
                invariant
                    n == xe@.len(),
                    n == ye@.len(),
                    i <= n,
                    *a == Value::Object(*x),
                    *b == Value::Object(*y),
                    xe@ == x.spec_entries(),
                    ye@ == y.spec_entries(),
                    fields_model(xe@).len() == xe@.len(),
                    fields_model(ye@).len() == ye@.len(),
                    forall|j: int|
                        0 <= j < xe@.len() ==> #[trigger] fields_model(xe@)[j] == (
                        xe@[j].0@,
                        value_model(xe@[j].1),
                        ),
                    forall|j: int|
                        0 <= j < ye@.len() ==> #[trigger] fields_model(ye@)[j] == (
                        ye@[j].0@,
                        value_model(ye@[j].1),
                        ),
                    forall|j: int|
                        0 <= j < i ==> (#[trigger] fields_model(xe@)[j]).0 == fields_model(ye@)[j].0
                            && json_eq(fields_model(xe@)[j].1, fields_model(ye@)[j].1),
                decreases n - i,
            {
                let same_key = match compare_keys(xe[i].0.as_str(), ye[i].0.as_str()) {
                    KeyOrder::Equal => true,
                    _ => false,
                };
                if !same_key {
                    proof {
                        assert(fields_model(xe@)[i as int].0 != fields_model(ye@)[i as int].0);
                        lemma_json_fields_eq(fields_model(xe@), fields_model(ye@));
                    }
                    return false;
                }
                proof {
                    KeyMap::<Value>::lemma_entry_decreases(*x, i as int);
                    assert(decreases_to!(*a => (*a)->Object_0));
                }
                if !values_equal(&xe[i].1, &ye[i].1) {
                    proof {
                        assert(!json_eq(fields_model(xe@)[i as int].1, fields_model(ye@)[i as int].1));
                        lemma_json_fields_eq(fields_model(xe@), fields_model(ye@));
                    }
                    return false;
                }
                i = i + 1;
            }
            true
        },
        _ => false,
    }
}

/// Two entry sequences with the same keys, in the same places, and values
/// with the same models.
pub open spec fn same_field_models(s: Seq<(String, Value)>, t: Seq<(String, Value)>) -> bool {
    &&& s.len() == t.len()
    &&& forall|i: int| 0 <= i < s.len() ==> (#[trigger] s[i]).0@ == t[i].0@ && s[i].1@ == t[i].1@
}

/// The fields of an object or document as a map from keys to models.
pub open spec fn fields_view(m: KeyMap<Value>) -> Map<Seq<char>, Json> {
    m@.map_values(|v: Value| v@)
}

pub proof fn lemma_same_field_models(m: KeyMap<Value>, r: KeyMap<Value>)
    requires
        entries_sorted(m.spec_entries()),
        entries_sorted(r.spec_entries()),
        same_field_models(m.spec_entries(), r.spec_entries()),
    ensures
        fields_view(m) == fields_view(r),
        fields_model(m.spec_entries()) == fields_model(r.spec_entries()),
{
    let s = m.spec_entries();
    let t = r.spec_entries();
    lemma_fields_model(s);
    lemma_fields_model(t);
    assert(fields_model(s) =~= fields_model(t));
    assert forall|k: Seq<char>| #[trigger] m@.contains_key(k) <==> r@.contains_key(k) by {
        if m@.contains_key(k) {
            let i = choose|i: int| 0 <= i < s.len() && #[trigger] s[i].0@ == k;
            assert(t[i].0@ == k);
        }
        if r@.contains_key(k) {
            let i = choose|i: int| 0 <= i < t.len() && #[trigger] t[i].0@ == k;
            assert(s[i].0@ == k);
        }
    }
    assert forall|k: Seq<char>| #[trigger] fields_view(m).contains_key(k) implies fields_view(m)[k]
        == fields_view(r)[k] by {
        let i = choose|i: int| 0 <= i < s.len() && #[trigger] s[i].0@ == k;
        crate::key_map::lemma_entries_map_index(s, i);
        assert(t[i].0@ == k);
        crate::key_map::lemma_entries_map_index(t, i);
    }
    assert(fields_view(m) =~= fields_view(r));
}

/// A copy of a value, with the same model.
pub fn copy_value(v: &Value) -> (r: Value)
    ensures
        r@ == v@,
    decreases v, 1nat,
{
    match v {
        Value::Null => Value::Null,
        Value::Boolean(b) => Value::Boolean(*b),
        Value::Number(n) => Value::Number(*n),
        Value::String(s) => Value::String(s.clone()),
        Value::Array(a) => {
            let mut out: Vec<Value> = Vec::new();
            let n = a.len();
            let mut i: usize = 0;
            while i < n
                invariant
                    n == a@.len(),
                    i <= n,
                    *v == Value::Array(*a),
                    out@.len() == i,
                    forall|j: int| 0 <= j < i ==> (#[trigger] out@[j])@ == a@[j]@,
                decreases n - i,
            {
                proof {
                    assert(decreases_to!(*v => (*v)->Array_0));
                    assert(decreases_to!(*a => a@));
                    assert(decreases_to!(a@ => a@[i as int]));
                }
                let c = copy_value(&a[i]);
                out.push(c);
                i = i + 1;
            }
            proof {
                lemma_values_model(a@);
                lemma_values_model(out@);
                assert(values_model(out@) =~= values_model(a@));
            }
            Value::Array(out)
        },
        Value::Object(m) => {
            proof {
                assert(decreases_to!(*v => (*v)->Object_0));
            }
            let r = copy_fields(m);
            proof {
                lemma_same_field_models(*m, r);
            }
            Value::Object(r)
        },
    }
}

/// A copy of a map of fields, key by key, with values of the same models.
pub fn copy_fields(m: &KeyMap<Value>) -> (r: KeyMap<Value>)
    ensures
        same_field_models(m.spec_entries(), r.spec_entries()),
        entries_sorted(m.spec_entries()),
        entries_sorted(r.spec_entries()),
        fields_view(r) == fields_view(*m),
    decreases m, 0nat,
{
    let es = m.entries();
    let mut out: Vec<(String, Value)> = Vec::new();
    let n = es.len();
    let mut i: usize = 0;
    while i < n
        invariant
            n == es@.len(),
            es@ == m.spec_entries(),
            entries_sorted(es@),
            i <= n,
            out@.len() == i,
            forall|j: int| 0 <= j < i ==> (#[trigger] out@[j]).0@ == es@[j].0@ && out@[j].1@ == es@[j].1@,
        decreases n - i,
    {
        proof {
            KeyMap::<Value>::lemma_entry_decreases(*m, i as int);
        }
        let k = es[i].0.clone();
        let c = copy_value(&es[i].1);
        out.push((k, c));
        i = i + 1;
    }
    proof {
        assert forall|a: int, b: int| 0 <= a < b < out@.len() implies key_lt(
            #[trigger] out@[a].0@,
            #[trigger] out@[b].0@,
        ) by {
            assert(key_lt(es@[a].0@, es@[b].0@));
        }
    }
    let r = KeyMap::from_sorted_entries(out);
    proof {
        lemma_same_field_models(*m, r);
    }
    r
}

/// `==` on values: numbers compare as binary64 values (a NaN equals nothing,
/// the two zeros are equal), arrays element by element, objects field by
/// field.
impl PartialEq for Value {
    fn eq(&self, other: &Self) -> (r: bool) {
        values_equal(self, other)
    }
}

impl vstd::std_specs::cmp::PartialEqSpecImpl for Value {
    open spec fn obeys_eq_spec() -> bool {
        true
    }

    open spec fn eq_spec(&self, other: &Value) -> bool {
        json_eq(self@, other@)
    }
}

impl Clone for Value {
    fn clone(&self) -> (r: Self)
        ensures
            r@ == self@,
    {
        copy_value(self)
    }
}

} // verus!
