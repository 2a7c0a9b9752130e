//! The collections shown in the dashboard's menu.

use vstd::prelude::*;

use crate::document::Document;
use crate::keys::{compare_keys, key_lt, lemma_key_lt_strict_total, KeyOrder};

verus! {

broadcast use {vstd::seq_lib::to_multiset_build, vstd::seq_lib::to_multiset_insert};

/// `s` is in ascending key order (equal keys may repeat).
pub open spec fn strings_sorted(s: Seq<String>) -> bool {
    forall|a: int, b: int| 0 <= a < b < s.len() ==> !key_lt(#[trigger] s[b]@, #[trigger] s[a]@)
}

/// Sorts strings in ascending order, as `Vec::<String>::sort` does.
pub fn sort_strings(v: &Vec<String>) -> (r: Vec<String>)
    ensures
        strings_sorted(r@),
        r@.to_multiset() == v@.to_multiset(),
{
    let mut out: Vec<String> = Vec::new();
    let n = v.len();
    let mut i: usize = 0;
    proof {
        assert(v@.take(0) =~= Seq::<String>::empty());
    }
    while i < n
        invariant
            n == v@.len(),
            i <= n,
            strings_sorted(out@),
            out@.to_multiset() == v@.take(i as int).to_multiset(),
        decreases n - i,
    {
        let x = v[i].clone();
        let mut p = out.len();
        while p > 0
            invariant
                p <= out@.len(),
                forall|q: int| p <= q < out@.len() ==> key_lt(x@, #[trigger] out@[q]@),
            ensures
                p <= out@.len(),
                forall|q: int| p <= q < out@.len() ==> key_lt(x@, #[trigger] out@[q]@),
                p == 0 || !key_lt(x@, out@[p - 1]@),
            decreases p,
        {
            match compare_keys(x.as_str(), out[p - 1].as_str()) {
                KeyOrder::Less => {
                    p = p - 1;
                },
                _ => {
                    proof {
                        lemma_key_lt_strict_total(x@, x@, x@);
                    }
                    break;
                },
            }
        }
        let ghost ob = out@;
        out.insert(p, x);
        proof {
            assert(v@.take(i + 1) =~= v@.take(i as int).push(v@[i as int]));
            assert forall|a: int, b: int| 0 <= a < b < out@.len() implies !key_lt(#[trigger] out@[b]@, #[trigger] out@[a]@) by {
                if b < p {
                    assert(out@[a] == ob[a] && out@[b] == ob[b]);
                } else if b == p {
                    assert(out@[a] == ob[a]);
                    let y = ob[p - 1];
                    lemma_key_lt_strict_total(x@, y@, ob[a]@);
                    lemma_key_lt_strict_total(y@, x@, ob[a]@);
                    lemma_key_lt_strict_total(ob[a]@, y@, x@);
                    lemma_key_lt_strict_total(x@, ob[a]@, y@);
                } else if a < p {
                    assert(out@[a] == ob[a] && out@[b] == ob[b - 1]);
                    lemma_key_lt_strict_total(ob[b - 1]@, ob[a]@, ob[a]@);
                } else if a == p {
                    assert(out@[b] == ob[b - 1]);
                    lemma_key_lt_strict_total(x@, ob[b - 1]@, x@);
                } else {
                    assert(out@[a] == ob[a - 1] && out@[b] == ob[b - 1]);
                }
            }
        }
        i = i + 1;
    }
    proof {
        assert(v@.take(n as int) =~= v@);
    }
    out
}

/// The collections of the dashboard's menu: the given names together with
/// `authentication` and `users` (each added when missing), sorted.
pub fn dashboard_collections(names: Vec<String>) -> (r: Vec<String>)
    ensures
        strings_sorted(r@),
        exists|added: Seq<String>| {
            &&& r@.to_multiset() == (names@ + added).to_multiset()
            &&& added.len() <= 2
            &&& forall|i: int, j: int| 0 <= i < j < added.len() ==> (#[trigger] added[i])@ != (#[trigger] added[j])@
            &&& forall|i: int| 0 <= i < added.len() ==> (#[trigger] added[i])@ == "authentication"@ || added[i]@ == "users"@
            &&& (exists|i: int| 0 <= i < r@.len() && #[trigger] r@[i]@ == "authentication"@)
            &&& (exists|i: int| 0 <= i < r@.len() && #[trigger] r@[i]@ == "users"@)
            &&& (exists|i: int| 0 <= i < names@.len() && #[trigger] names@[i]@ == "authentication"@) ==> forall|i: int|
                0 <= i < added.len() ==> (#[trigger] added[i])@ != "authentication"@
            &&& (exists|i: int| 0 <= i < names@.len() && #[trigger] names@[i]@ == "users"@) ==> forall|i: int|
                0 <= i < added.len() ==> (#[trigger] added[i])@ != "users"@
        },
{
    let mut all = names;
    let ghost base = all@;
    proof {
        reveal_strlit("authentication");
        reveal_strlit("users");
        assert("authentication"@ != "users"@) by {
            assert("authentication"@.len() != "users"@.len());
        }
    }
    let had_auth = contains_name(&all, "authentication");
    if !had_auth {
        all.push("authentication".to_owned());
        assert(all@[all@.len() - 1]@ == "authentication"@);
    }
    assert(exists|i: int| 0 <= i < all@.len() && #[trigger] all@[i]@ == "authentication"@);
    let ghost mid = all@;
    let had_users = contains_name(&all, "users");
    if !had_users {
        all.push("users".to_owned());
        assert(all@[all@.len() - 1]@ == "users"@);
    }
    assert(exists|i: int| 0 <= i < all@.len() && #[trigger] all@[i]@ == "users"@);
    assert(exists|i: int| 0 <= i < all@.len() && #[trigger] all@[i]@ == "authentication"@) by {
        let i = choose|i: int| 0 <= i < mid.len() && #[trigger] mid[i]@ == "authentication"@;
        assert(all@[i] == mid[i]);
    }
    let r = sort_strings(&all);
    proof {
        let added = all@.subrange(base.len() as int, all@.len() as int);
        assert(all@ =~= base + added);
        assert forall|i: int| 0 <= i < added.len() implies (#[trigger] added[i])@ == "authentication"@ || added[i]@ == "users"@ by {
            assert(added[i] == all@[base.len() + i]);
        }
        if exists|i: int| 0 <= i < base.len() && #[trigger] base[i]@ == "authentication"@ {
            assert forall|i: int| 0 <= i < added.len() implies (#[trigger] added[i])@ != "authentication"@ by {
                assert(added[i] == all@[base.len() + i]);
            }
        }
        if exists|i: int| 0 <= i < base.len() && #[trigger] base[i]@ == "users"@ {
            let k = choose|i: int| 0 <= i < base.len() && #[trigger] base[i]@ == "users"@;
            assert(mid[k] == base[k]);
            assert forall|i: int| 0 <= i < added.len() implies (#[trigger] added[i])@ != "users"@ by {
                assert(added[i] == all@[base.len() + i]);
            }
        }
        let ia = choose|i: int| 0 <= i < all@.len() && #[trigger] all@[i]@ == "authentication"@;
        let iu = choose|i: int| 0 <= i < all@.len() && #[trigger] all@[i]@ == "users"@;
        vstd::seq_lib::to_multiset_contains(all@, all@[ia]);
        vstd::seq_lib::to_multiset_contains(all@, all@[iu]);
        assert(all@.contains(all@[ia]));
        assert(all@.contains(all@[iu]));
        vstd::seq_lib::to_multiset_contains(r@, all@[ia]);
        vstd::seq_lib::to_multiset_contains(r@, all@[iu]);
        let ja = choose|j: int| 0 <= j < r@.len() && r@[j] == all@[ia];
        let ju = choose|j: int| 0 <= j < r@.len() && r@[j] == all@[iu];
        assert(r@[ja]@ == "authentication"@);
        assert(r@[ju]@ == "users"@);
        assert(added.len() <= 2);
        assert forall|i: int, j: int| 0 <= i < j < added.len() implies (#[trigger] added[i])@ != (#[trigger] added[j])@ by {
            assert(added[i] == all@[base.len() + i]);
            assert(added[j] == all@[base.len() + j]);
            if !had_auth && !had_users {
                assert(added[0]@ == "authentication"@);
                assert(added[1]@ == "users"@);
            }
        }
        assert(r@.to_multiset() == (base + added).to_multiset());
    }
    r
}

/// What the dashboard shows of collection `collection`: its documents, or
/// the error of listing them, except that the `authentication` and `users`
/// collections show as empty while they do not exist.
pub fn dashboard_listing(
    collection: &str,
    listed: Result<Vec<(String, Document)>, String>,
) -> (r: (Vec<(String, Document)>, Option<String>))
    ensures
        match listed {
            Ok(v) => r.0@ == v@ && r.1 is None,
            Err(e) => r.0@.len() == 0 && (if collection@ == "authentication"@ || collection@ == "users"@ {
                r.1 is None
            } else {
                r.1 == Some(e)
            }),
        },
{
    match listed {
        Ok(v) => (v, None),
        Err(e) => {
            if crate::auth::same_str(collection, "authentication") || crate::auth::same_str(collection, "users") {
                (Vec::new(), None)
            } else {
                (Vec::new(), Some(e))
            }
        },
    }
}

fn contains_name(names: &Vec<String>, name: &str) -> (r: bool)
    ensures
        r == exists|i: int| 0 <= i < names@.len() && #[trigger] names@[i]@ == name@,
{
    let n = names.len();
    let mut i: usize = 0;
    while i < n
        invariant
            n == names@.len(),
            i <= n,
            forall|j: int| 0 <= j < i ==> #[trigger] names@[j]@ != name@,
        decreases n - i,
    {
        match compare_keys(names[i].as_str(), name) {
            KeyOrder::Equal => {
                return true;
            },
            _ => {},
        }
        i = i + 1;
    }
    false
}

} // verus!
