use std::cmp::Ordering;

use waterbase_rust_app::auth::{
    admin_credentials_match, hash_salted_password, registration_after_credentials, registration_after_profile,
    RegistrationStep, is_bearer_authorized, is_production, is_session_cookie_valid,
    login_candidate, login_query, new_account, password_matches, registration_documents, resolve_document_id,
    salted_password, validate_authentication_fields, LoginError, Sessions,
};
use waterbase_rust_app::css::get_css;
use waterbase_rust_app::dashboard::{dashboard_collections, dashboard_listing, sort_strings};
use waterbase_rust_app::keys::{compare_keys, KeyOrder};
use waterbase_rust_app::number::{f64_bits_from_u64, number_eq, number_partial_cmp};
use waterbase_rust_app::query::apply_window;
use waterbase_rust_app::requests::{document_with_id, prepare_new_document};
use waterbase_rust_app::storage::{collection_dir, document_file_name, document_id_from_file_name, document_path};
use waterbase_rust_app::value::values_equal;
use waterbase_rust_app::{
    compare_for_sort, compare_values, Collection, Database, Document, KeyMap, OrderBy, OrderDirection, Query, Value,
    WhereFilter, WhereOp,
};

fn num(x: f64) -> Value {
    Value::Number(x.to_bits())
}

fn doc(pairs: Vec<(&str, Value)>) -> Document {
    let mut fields = KeyMap::new();
    for (k, v) in pairs {
        fields.insert(k.to_string(), v);
    }
    Document::new(fields)
}

fn ids(v: &Vec<(String, Document)>) -> Vec<String> {
    v.iter().map(|(k, _)| k.clone()).collect()
}

#[test]
fn numbers_compare_as_f64() {
    let samples = [
        0.0, -0.0, 1.0, -1.0, 0.5, -0.5, 1e300, -1e300, f64::INFINITY, f64::NEG_INFINITY, f64::NAN,
        f64::MIN_POSITIVE, 5e-324, -5e-324, 29.0, 999.99, 899.99,
    ];
    for a in samples.iter() {
        for b in samples.iter() {
            assert_eq!(number_partial_cmp(a.to_bits(), b.to_bits()), a.partial_cmp(b), "{} vs {}", a, b);
            assert_eq!(number_eq(a.to_bits(), b.to_bits()), a == b, "{} == {}", a, b);
        }
    }
}

#[test]
fn millisecond_counts_encode_exactly() {
    for n in [0u64, 1, 2, 3, 7, 1000, 1_700_000_000_000, (1u64 << 52) - 1, 1u64 << 52, (1u64 << 53) - 1] {
        assert_eq!(f64_bits_from_u64(n), (n as f64).to_bits(), "{}", n);
    }
    for n in [1u64 << 53, (1u64 << 53) + 1, (1u64 << 53) + 2, (1u64 << 53) + 3, (1u64 << 54) + 6, (1u64 << 54) + 2, (1u64 << 54) + 10, (1u64 << 60) + (1u64 << 7), (1u64 << 60) + (3u64 << 7), (1u64 << 60) - 1, u64::MAX, u64::MAX - 1024, 0x0123_4567_89ab_cdef] {
        assert_eq!(f64_bits_from_u64(n), (n as f64).to_bits(), "{}", n);
    }
}

#[test]
fn sort_order_of_values() {
    assert_eq!(compare_for_sort(&Value::Null, &Value::Boolean(false)), Ordering::Less);
    assert_eq!(compare_for_sort(&Value::Boolean(true), &num(-5.0)), Ordering::Less);
    assert_eq!(compare_for_sort(&num(1e9), &Value::String("a".to_string())), Ordering::Less);
    assert_eq!(compare_for_sort(&Value::Boolean(false), &Value::Boolean(true)), Ordering::Less);
    assert_eq!(compare_for_sort(&num(2.0), &num(10.0)), Ordering::Less);
    assert_eq!(compare_for_sort(&num(f64::NAN), &num(1.0)), Ordering::Equal);
    assert_eq!(compare_for_sort(&Value::String("b".into()), &Value::String("ab".into())), Ordering::Greater);
    assert_eq!(compare_for_sort(&Value::String("z".into()), &Value::String("é".into())), Ordering::Less);
    let short = Value::Array(vec![num(100.0)]);
    let long = Value::Array(vec![Value::Null, Value::Null]);
    assert_eq!(compare_for_sort(&short, &long), Ordering::Less);
    let mut o = KeyMap::new();
    o.insert("a".to_string(), Value::Null);
    assert_eq!(compare_for_sort(&Value::Object(o), &Value::Object(KeyMap::new())), Ordering::Greater);
}

#[test]
fn filter_operators() {
    let a = num(3.0);
    let b = num(5.0);
    assert!(!compare_values(&a, &WhereOp::Equal, &b));
    assert!(compare_values(&a, &WhereOp::NotEqual, &b));
    assert!(compare_values(&a, &WhereOp::LessThan, &b));
    assert!(compare_values(&a, &WhereOp::LessThanOrEqual, &b));
    assert!(!compare_values(&a, &WhereOp::GreaterThan, &b));
    assert!(!compare_values(&a, &WhereOp::GreaterThanOrEqual, &b));
    assert!(compare_values(&b, &WhereOp::GreaterThanOrEqual, &b));
    assert!(compare_values(&num(0.0), &WhereOp::Equal, &num(-0.0)));
    assert!(!compare_values(&num(f64::NAN), &WhereOp::Equal, &num(f64::NAN)));
    assert!(compare_values(&num(f64::NAN), &WhereOp::GreaterThanOrEqual, &num(1.0)));
}

#[test]
fn equality_of_nested_values() {
    let mut o1 = KeyMap::new();
    o1.insert("x".to_string(), Value::Array(vec![num(0.0), Value::String("s".into())]));
    let mut o2 = KeyMap::new();
    o2.insert("x".to_string(), Value::Array(vec![num(-0.0), Value::String("s".into())]));
    assert!(values_equal(&Value::Object(o1), &Value::Object(o2)));
    let mut o3 = KeyMap::new();
    o3.insert("y".to_string(), Value::Array(vec![num(0.0), Value::String("s".into())]));
    let mut o4 = KeyMap::new();
    o4.insert("x".to_string(), Value::Array(vec![num(0.0), Value::String("s".into())]));
    assert!(!values_equal(&Value::Object(o3), &Value::Object(o4)));
    let c = Value::Array(vec![num(1.0), Value::Null]);
    assert_eq!(c.clone(), c);
}

#[test]
fn key_map_keeps_keys_sorted() {
    let mut m = KeyMap::new();
    assert!(m.is_empty());
    assert_eq!(m.insert("b".to_string(), 2), None);
    assert_eq!(m.insert("é".to_string(), 4), None);
    assert_eq!(m.insert("a".to_string(), 1), None);
    assert_eq!(m.insert("z".to_string(), 3), None);
    assert_eq!(m.insert("b".to_string(), 20), Some(2));
    assert_eq!(m.keys(), vec!["a", "b", "z", "é"]);
    assert_eq!(m.get("b"), Some(&20));
    assert!(m.contains_key("z"));
    assert_eq!(m.remove("z"), Some(3));
    assert_eq!(m.remove("z"), None);
    assert_eq!(m.get("z"), None);
    assert_eq!(m.len(), 3);
    assert_eq!(compare_keys("ab", "b"), KeyOrder::Less);
    assert_eq!(compare_keys("b", "b"), KeyOrder::Equal);
    assert_eq!(compare_keys("ba", "b"), KeyOrder::Greater);
}

#[test]
fn database_errors_name_what_is_missing() {
    let mut db = Database::new();
    db.create_collection("users".to_string());
    let e = db.update_document("nope", "x", KeyMap::new()).unwrap_err();
    assert_eq!(e, "Collection 'nope' not found");
    let e = db.update_document("users", "x", KeyMap::new()).unwrap_err();
    assert_eq!(e, "Document 'x' not found");
    assert_eq!(db.delete_document("nope", "x").unwrap_err(), "Collection 'nope' not found");
    assert_eq!(db.delete_document("users", "x").unwrap_err(), "Document 'x' not found");
    assert_eq!(db.list_documents("nope").unwrap_err(), "Collection 'nope' not found");
    let q = Query { filters: None, order_by: None, limit: None, offset: None };
    assert_eq!(db.execute_query("nope", q).unwrap_err(), "Collection 'nope' not found");
}

#[test]
fn create_collection_keeps_existing_documents() {
    let mut db = Database::new();
    db.create_document("c", "d1".to_string(), doc(vec![("k", num(1.0))])).unwrap();
    db.create_collection("c".to_string());
    assert!(db.get_document("c", "d1").is_some());
    assert_eq!(db.get_collection("c").unwrap().documents.len(), 1);
    assert!(db.delete_collection("c").is_ok());
    assert!(db.get_collection("c").is_none());
}

#[test]
fn create_replaces_and_update_merges() {
    let mut db = Database::new();
    db.create_document("c", "d".to_string(), doc(vec![("a", num(1.0)), ("b", num(2.0))])).unwrap();
    db.create_document("c", "d".to_string(), doc(vec![("a", num(5.0))])).unwrap();
    let d = db.get_document("c", "d").unwrap();
    assert_eq!(d.fields.get("b"), None);
    let mut upd = KeyMap::new();
    upd.insert("b".to_string(), num(7.0));
    db.update_document_stamped("c", "d", upd, 42.0f64.to_bits()).unwrap();
    let d = db.get_document("c", "d").unwrap();
    assert_eq!(d.fields.get("a"), Some(&num(5.0)));
    assert_eq!(d.fields.get("b"), Some(&num(7.0)));
    assert_eq!(d.fields.get("_updated_at"), Some(&num(42.0)));
}

#[test]
fn listing_is_sorted_by_id() {
    let mut db = Database::new();
    for id in ["u3", "u1", "u10", "u2"] {
        db.create_document("c", id.to_string(), doc(vec![])).unwrap();
    }
    let list = db.list_documents("c").unwrap();
    assert_eq!(ids(&list), vec!["u1", "u10", "u2", "u3"]);
}

#[test]
fn query_ties_keep_id_order_and_missing_fields_sort_as_null() {
    let mut col = Collection::new();
    col.insert_document("b".to_string(), doc(vec![("n", num(1.0))]));
    col.insert_document("a".to_string(), doc(vec![("n", num(1.0))]));
    col.insert_document("c".to_string(), doc(vec![("n", num(0.0))]));
    col.insert_document("d".to_string(), doc(vec![]));
    let q = Query {
        filters: None,
        order_by: Some(OrderBy { field: "n".to_string(), direction: OrderDirection::Descending }),
        limit: None,
        offset: None,
    };
    assert_eq!(ids(&col.execute_query(q)), vec!["a", "b", "c", "d"]);
    let q = Query {
        filters: None,
        order_by: Some(OrderBy { field: "n".to_string(), direction: OrderDirection::Ascending }),
        limit: None,
        offset: None,
    };
    assert_eq!(ids(&col.execute_query(q)), vec!["d", "c", "a", "b"]);
    let q = Query {
        filters: Some(vec![
            WhereFilter { field: "n".to_string(), op: WhereOp::GreaterThanOrEqual, value: num(0.0) },
            WhereFilter { field: "n".to_string(), op: WhereOp::NotEqual, value: num(0.0) },
        ]),
        order_by: None,
        limit: None,
        offset: Some(1),
    };
    assert_eq!(ids(&col.execute_query(q)), vec!["b"]);
    let q = Query { filters: None, order_by: None, limit: Some(10), offset: Some(4) };
    assert!(col.execute_query(q).is_empty());
}

#[test]
fn windows_skip_then_take() {
    assert_eq!(apply_window(vec![1, 2, 3, 4], Some(1), Some(2)), vec![2, 3]);
    assert_eq!(apply_window(vec![1, 2, 3, 4], None, Some(0)), Vec::<i32>::new());
    assert_eq!(apply_window(vec![1, 2, 3, 4], Some(9), None), Vec::<i32>::new());
    assert_eq!(apply_window(vec![1, 2, 3, 4], Some(3), Some(5)), vec![4]);
}

#[test]
fn collection_level_operations() {
    let mut col = Collection::new();
    col.insert_document("x".to_string(), doc(vec![("v", num(1.0))]));
    assert_eq!(col.remove_document("y").unwrap_err(), "Document 'y' not found");
    assert_eq!(col.update_document("y", KeyMap::new()).unwrap_err(), "Document 'y' not found");
    assert!(col.update_document("x", KeyMap::new()).is_ok());
    assert!(col.get_document("x").unwrap().fields.contains_key("_updated_at"));
    assert_eq!(col.list_documents().len(), 1);
    assert!(col.remove_document("x").is_ok());
    assert!(col.get_document("x").is_none());
}

#[test]
fn sessions_rotate_and_end() {
    let mut s = Sessions::new();
    s.start("t1".to_string(), "user".to_string());
    assert_eq!(s.user_of("t1"), Some("user".to_string()));
    assert_eq!(s.rotate("t1", "t2".to_string()), Some("user".to_string()));
    assert_eq!(s.user_of("t1"), None);
    assert_eq!(s.user_of("t2"), Some("user".to_string()));
    assert_eq!(s.rotate("t1", "t3".to_string()), None);
    assert_eq!(s.user_of("t3"), None);
    s.end("t2");
    assert_eq!(s.user_of("t2"), None);
}

#[test]
fn access_checks() {
    assert!(is_bearer_authorized(Some("Bearer k123"), "k123"));
    assert!(!is_bearer_authorized(Some("Bearer k12"), "k123"));
    assert!(!is_bearer_authorized(Some("bearer k123"), "k123"));
    assert!(!is_bearer_authorized(None, "k123"));
    assert!(is_session_cookie_valid(Some("authenticated_admin")));
    assert!(!is_session_cookie_valid(Some("x")));
    assert!(!is_session_cookie_valid(None));
    assert!(admin_credentials_match(Some("admin"), Some("pw"), "admin", "pw"));
    assert!(!admin_credentials_match(Some("admin"), None, "admin", "pw"));
    assert!(!admin_credentials_match(Some("root"), Some("pw"), "admin", "pw"));
    assert!(is_production("prod"));
    assert!(!is_production("dev"));
}

#[test]
fn authentication_collection_accepts_only_credentials() {
    let mut ok = KeyMap::new();
    ok.insert("email".to_string(), Value::Null);
    ok.insert("password_hash".to_string(), Value::Null);
    ok.insert("_meta".to_string(), Value::Null);
    assert!(validate_authentication_fields("authentication", &ok).is_ok());
    let mut bad = KeyMap::new();
    bad.insert("name".to_string(), Value::Null);
    assert_eq!(
        validate_authentication_fields("authentication", &bad).unwrap_err(),
        "A coleção 'authentication' só pode aceitar os campos 'email' e 'password_hash'"
    );
    assert!(validate_authentication_fields("users", &bad).is_ok());
}

#[test]
fn registration_and_login_pieces() {
    let mut extra = KeyMap::new();
    extra.insert("name".to_string(), Value::String("Jane Doe".to_string()));
    let (auth, profile) = registration_documents("user@example.com".to_string(), "h".to_string(), extra);
    assert_eq!(auth.fields.get("email"), Some(&Value::String("user@example.com".to_string())));
    assert_eq!(auth.fields.get("password_hash"), Some(&Value::String("h".to_string())));
    assert_eq!(auth.fields.len(), 2);
    assert_eq!(profile.fields.get("name"), Some(&Value::String("Jane Doe".to_string())));
    assert!(validate_authentication_fields("authentication", &auth.fields).is_ok());

    let mut db = Database::new();
    db.create_document("authentication", "id1".to_string(), auth).unwrap();
    let results = db.execute_query("authentication", login_query("user@example.com")).unwrap();
    assert_eq!(login_candidate(&results), Ok(("id1".to_string(), "h".to_string())));
    let none = db.execute_query("authentication", login_query("other@example.com")).unwrap();
    assert_eq!(login_candidate(&none), Err(LoginError::InvalidCredentials));
    db.create_document("authentication", "id2".to_string(), doc(vec![("email", Value::String("x@y".into()))]))
        .unwrap();
    let corrupt = db.execute_query("authentication", login_query("x@y")).unwrap();
    assert_eq!(login_candidate(&corrupt), Err(LoginError::CorruptCredentials));
}

#[test]
fn passwords_hash_and_verify() {
    assert_eq!(salted_password("my_password", "key"), "my_passwordkey");
    let h = hash_salted_password("my_password", "key").unwrap();
    assert_eq!(h.len(), 60);
    assert!(h.starts_with("$2b$10$"));
    assert!(password_matches("my_password", "key", &h));
    assert!(password_matches("my_pass", "wordkey", &h));
    assert!(!password_matches("my_password", "other", &h));
    assert!(!password_matches("wrong", "key", &h));
    assert!(!password_matches("my_password", "key", "not a hash"));
}

fn looks_like_uuid_v4(s: &str) -> bool {
    let b = s.as_bytes();
    b.len() == 36
        && b.iter().enumerate().all(|(i, c)| {
            if i == 8 || i == 13 || i == 18 || i == 23 {
                *c == b'-'
            } else {
                c.is_ascii_digit() || (b'a'..=b'f').contains(c)
            }
        })
        && b[14] == b'4'
        && matches!(b[19], b'8' | b'9' | b'a' | b'b')
}

#[test]
fn sessions_open_with_fresh_tokens() {
    let mut s = Sessions::new();
    let t1 = s.open("user".to_string());
    assert_eq!(t1.len(), 36);
    assert!(looks_like_uuid_v4(&t1));
    assert_eq!(s.user_of(&t1), Some("user".to_string()));
    let (u, t2) = s.revalidate(&t1).unwrap();
    assert_eq!(u, "user");
    assert!(looks_like_uuid_v4(&t2));
    assert_ne!(t1, t2);
    assert_eq!(s.user_of(&t1), None);
    assert_eq!(s.user_of(&t2), Some("user".to_string()));
    assert!(s.revalidate(&t1).is_none());
    let mut extra = KeyMap::new();
    extra.insert("role".to_string(), Value::String("admin".to_string()));
    let (id, auth, profile) = new_account("a@b".to_string(), "h".to_string(), extra);
    assert_eq!(id.len(), 36);
    assert!(looks_like_uuid_v4(&id));
    assert_eq!(auth.fields.get("email"), Some(&Value::String("a@b".to_string())));
    assert_eq!(profile.fields.get("role"), Some(&Value::String("admin".to_string())));
}

#[test]
fn new_ids_and_created_stamps() {
    assert_eq!(resolve_document_id("doc1".to_string()), "doc1");
    let fresh = resolve_document_id("new_id".to_string());
    assert_eq!(fresh.len(), 36);
    assert_eq!(fresh.as_bytes()[8], b'-');
    assert!(looks_like_uuid_v4(&fresh));
    let (new_id, _) = prepare_new_document("new_id".to_string(), doc(vec![]), None);
    assert!(looks_like_uuid_v4(&new_id));
    let (id, d) = prepare_new_document("a".to_string(), doc(vec![]), Some(true));
    assert_eq!(id, "a");
    match d.fields.get("_created_at") {
        Some(Value::Number(b)) => assert!(f64::from_bits(*b) > 0.0),
        _ => panic!("missing stamp"),
    }
    let (_, d) = prepare_new_document("a".to_string(), doc(vec![]), None);
    assert!(d.fields.is_empty());
    let d = document_with_id("x".to_string(), doc(vec![("id", num(1.0)), ("k", Value::Null)]));
    assert_eq!(d.fields.get("id"), Some(&Value::String("x".to_string())));
    assert_eq!(d.fields.get("k"), Some(&Value::Null));
}

#[test]
fn storage_paths_and_file_names() {
    assert_eq!(collection_dir("data", "users"), "data/users");
    assert_eq!(document_path("data", "users", "john_id"), "data/users/john_id.bin");
    assert_eq!(document_file_name("john_id"), "john_id.bin");
    assert_eq!(document_id_from_file_name("john_id.bin"), Some("john_id".to_string()));
    assert_eq!(document_id_from_file_name("a.tar.bin"), Some("a.tar".to_string()));
    assert_eq!(document_id_from_file_name("é.bin"), Some("é".to_string()));
    assert_eq!(document_id_from_file_name(".bin"), None);
    assert_eq!(document_id_from_file_name("x.json"), None);
    assert_eq!(document_id_from_file_name("bin"), None);
}

#[test]
fn dashboard_menu() {
    let r = dashboard_collections(vec!["zeta".to_string(), "users".to_string()]);
    assert_eq!(r, vec!["authentication", "users", "zeta"]);
    let r = dashboard_collections(vec![]);
    assert_eq!(r, vec!["authentication", "users"]);
    let (d, e) = dashboard_listing("users", Err("Collection 'users' not found".to_string()));
    assert!(d.is_empty() && e.is_none());
    let (d, e) = dashboard_listing("x", Err("Collection 'x' not found".to_string()));
    assert!(d.is_empty());
    assert_eq!(e, Some("Collection 'x' not found".to_string()));
    let (d, e) = dashboard_listing("x", Ok(vec![("a".to_string(), doc(vec![]))]));
    assert_eq!(d.len(), 1);
    assert!(e.is_none());
    let s = sort_strings(&vec!["b".to_string(), "a".to_string(), "b".to_string()]);
    assert_eq!(s, vec!["a", "b", "b"]);
}

#[test]
fn style_sheet() {
    let css = get_css();
    assert!(css.contains(":root"));
    assert!(css.contains("--primary: #00d2ff;"));
    assert!(css.contains("box-shadow: 0 0 0 2px rgba(0, 210, 255, 0.4);"));
    assert!(!css.contains("rgba(0, 210, 255, 0.2)"));
    assert!(css.contains("letter-spacing: -0.025em;"));
    assert!(!css.contains("letter-spacing: -0.05em;"));
}

#[test]
fn collection_taken_from_a_database_answers_as_the_database() {
    let mut db = Database::new();
    db.create_collection("c".to_string());
    for (id, n) in [("x", 3.0), ("y", 1.0), ("z", 2.0), ("w", 1.0)] {
        db.create_document("c", id.to_string(), doc(vec![("n", num(n))])).unwrap();
    }
    let query = || Query {
        filters: Some(vec![WhereFilter { field: "n".to_string(), op: WhereOp::LessThan, value: num(3.0) }]),
        order_by: Some(OrderBy { field: "n".to_string(), direction: OrderDirection::Ascending }),
        limit: Some(2),
        offset: Some(1),
    };
    let from_database = db.execute_query("c", query()).unwrap();
    let mut held = KeyMap::new();
    for (name, col) in db.collections.into_entries() {
        held.insert(name, col);
    }
    let from_held = held.get("c").unwrap().execute_query(query());
    assert_eq!(ids(&from_database), vec!["y", "z"]);
    assert_eq!(ids(&from_held), ids(&from_database));
    assert_eq!(from_held, from_database);
}

#[test]
fn value_equality_follows_f64() {
    assert_eq!(num(0.0), num(-0.0));
    assert_ne!(num(f64::NAN), num(f64::NAN));
    assert_ne!(num(1.0), num(2.0));
    assert_ne!(num(1.0), Value::String("1".to_string()));
    assert_eq!(Value::Array(vec![num(0.0)]), Value::Array(vec![num(-0.0)]));
    assert_ne!(Value::Array(vec![num(f64::NAN)]), Value::Array(vec![num(f64::NAN)]));
    assert_eq!(doc(vec![("a", num(-0.0))]), doc(vec![("a", num(0.0))]));
    assert_ne!(doc(vec![("a", num(f64::NAN))]), doc(vec![("a", num(f64::NAN))]));
}

#[test]
fn queries_and_databases_clone() {
    let q = Query {
        filters: Some(vec![WhereFilter { field: "n".to_string(), op: WhereOp::Equal, value: num(1.0) }]),
        order_by: Some(OrderBy { field: "n".to_string(), direction: OrderDirection::Descending }),
        limit: Some(3),
        offset: None,
    };
    let q2 = q.clone();
    assert_eq!(q2.filters.as_ref().unwrap()[0].field, "n");
    assert_eq!(q2.filters.as_ref().unwrap()[0].value, num(1.0));
    assert_eq!(q2.order_by.as_ref().unwrap().direction, OrderDirection::Descending);
    assert_eq!(q2.limit, Some(3));
    let mut db = Database::new();
    db.create_document("c", "d".to_string(), doc(vec![("n", num(1.0))])).unwrap();
    let copy = db.clone();
    assert_eq!(copy, db);
    let col = db.get_collection("c").unwrap().clone();
    assert_eq!(&col, db.get_collection("c").unwrap());
}

#[test]
fn registration_steps_and_rollback() {
    assert_eq!(registration_after_credentials(&Ok(())), RegistrationStep::StoreProfile);
    assert_eq!(registration_after_credentials(&Err("disk".to_string())), RegistrationStep::AlreadyExists);
    assert_eq!(registration_after_profile(Ok(())), RegistrationStep::Created);
    assert_eq!(
        registration_after_profile(Err("disk full".to_string())),
        RegistrationStep::RollBack("Erro ao criar perfil de usuário: disk full".to_string())
    );
    let mut db = Database::new();
    db.create_document("authentication", "other".to_string(), doc(vec![])).unwrap();
    let before = db.clone();
    db.create_document("authentication", "new".to_string(), doc(vec![("email", Value::String("a@b".to_string()))]))
        .unwrap();
    db.delete_document("authentication", "new").unwrap();
    assert_eq!(db, before);
}
