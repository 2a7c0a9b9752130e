use waterbase_rust_app::{
    Collection, Database, Document, KeyMap, OrderBy, OrderDirection, Query, Value, WhereFilter, WhereOp,
};

fn num(x: f64) -> Value {
    Value::Number(x.to_bits())
}

#[test]
fn test_structure_composition() {
    let mut fields = KeyMap::new();
    fields.insert(String::from("nome"), Value::String(String::from("Felipe")));
    fields.insert(String::from("idade"), num(29.0));
    fields.insert(String::from("ativo"), Value::Boolean(true));
    fields.insert(String::from("nulo"), Value::Null);

    let doc = Document { fields };

    let mut documents = KeyMap::new();
    documents.insert(String::from("felipe_id"), doc);

    let collection = Collection { documents };

    let mut collections = KeyMap::new();
    collections.insert(String::from("users"), collection);

    let db = Database { collections, storage_path: None };

    let user_col = db.collections.get("users").unwrap();
    let user_doc = user_col.documents.get("felipe_id").unwrap();

    assert_eq!(user_doc.fields.get("nome"), Some(&Value::String(String::from("Felipe"))));
    assert_eq!(user_doc.fields.get("idade"), Some(&num(29.0)));
    assert_eq!(user_doc.fields.get("ativo"), Some(&Value::Boolean(true)));
    assert_eq!(user_doc.fields.get("nulo"), Some(&Value::Null));
}

#[test]
fn test_crud_operations() {
    let mut db = Database::new();
    db.create_collection("products".to_string());

    let mut fields = KeyMap::new();
    fields.insert("name".to_string(), Value::String("Laptop".to_string()));
    fields.insert("price".to_string(), num(999.99));
    let doc = Document::new(fields);

    assert!(db.create_document("products", "prod_1".to_string(), doc).is_ok());

    // Get
    let retrieved = db.get_document("products", "prod_1").unwrap();
    assert_eq!(retrieved.fields.get("name"), Some(&Value::String("Laptop".to_string())));

    // Update
    let mut updates = KeyMap::new();
    updates.insert("price".to_string(), num(899.99));
    updates.insert("in_stock".to_string(), Value::Boolean(true));
    assert!(db.update_document("products", "prod_1", updates).is_ok());

    let updated = db.get_document("products", "prod_1").unwrap();
    assert_eq!(updated.fields.get("price"), Some(&num(899.99)));
    assert_eq!(updated.fields.get("in_stock"), Some(&Value::Boolean(true)));

    // List
    let list = db.list_documents("products").unwrap();
    assert_eq!(list.len(), 1);
    assert_eq!(list[0].0, "prod_1");

    // Delete
    assert!(db.delete_document("products", "prod_1").is_ok());
    assert!(db.get_document("products", "prod_1").is_none());
}

#[test]
fn test_querying() {
    let mut db = Database::new();
    db.create_collection("users".to_string());

    // Document 1
    let mut f1 = KeyMap::new();
    f1.insert("name".to_string(), Value::String("Ana".to_string()));
    f1.insert("age".to_string(), num(20.0));
    f1.insert("active".to_string(), Value::Boolean(true));
    db.create_document("users", "u1".to_string(), Document::new(f1)).unwrap();

    // Document 2
    let mut f2 = KeyMap::new();
    f2.insert("name".to_string(), Value::String("Carlos".to_string()));
    f2.insert("age".to_string(), num(30.0));
    f2.insert("active".to_string(), Value::Boolean(true));
    db.create_document("users", "u2".to_string(), Document::new(f2)).unwrap();

    // Document 3
    let mut f3 = KeyMap::new();
    f3.insert("name".to_string(), Value::String("Beto".to_string()));
    f3.insert("age".to_string(), num(25.0));
    f3.insert("active".to_string(), Value::Boolean(false));
    db.create_document("users", "u3".to_string(), Document::new(f3)).unwrap();

    // Query 1: Filter where active == true
    let q1 = Query {
        filters: Some(vec![WhereFilter {
            field: "active".to_string(),
            op: WhereOp::Equal,
            value: Value::Boolean(true),
        }]),
        order_by: None,
        limit: None,
        offset: None,
    };
    let res1 = db.execute_query("users", q1).unwrap();
    assert_eq!(res1.len(), 2);
    assert_eq!(res1[0].0, "u1"); // sorted by default ID (u1, u2)
    assert_eq!(res1[1].0, "u2");

    // Query 2: Filter where age > 22, sort by age desc
    let q2 = Query {
        filters: Some(vec![WhereFilter {
            field: "age".to_string(),
            op: WhereOp::GreaterThan,
            value: num(22.0),
        }]),
        order_by: Some(OrderBy {
            field: "age".to_string(),
            direction: OrderDirection::Descending,
        }),
        limit: None,
        offset: None,
    };
    let res2 = db.execute_query("users", q2).unwrap();
    assert_eq!(res2.len(), 2);
    assert_eq!(res2[0].0, "u2"); // Carlos (30)
    assert_eq!(res2[1].0, "u3"); // Beto (25)

    // Query 3: Filter where age > 18, limit 1, sort age asc
    let q3 = Query {
        filters: Some(vec![WhereFilter {
            field: "age".to_string(),
            op: WhereOp::GreaterThan,
            value: num(18.0),
        }]),
        order_by: Some(OrderBy {
            field: "age".to_string(),
            direction: OrderDirection::Ascending,
        }),
        limit: Some(1),
        offset: None,
    };
    let res3 = db.execute_query("users", q3).unwrap();
    assert_eq!(res3.len(), 1);
    assert_eq!(res3[0].0, "u1"); // Ana (20)
}

#[test]
fn test_querying_offset() {
    let mut db = Database::new();
    db.create_collection("users".to_string());

    for i in 0..5 {
        let mut f = KeyMap::new();
        f.insert("val".to_string(), num(i as f64));
        db.create_document("users", format!("u{}", i), Document::new(f)).unwrap();
    }

    // Query: offset 2, limit 2
    let q = Query {
        filters: None,
        order_by: None,
        limit: Some(2),
        offset: Some(2),
    };
    let res = db.execute_query("users", q).unwrap();
    assert_eq!(res.len(), 2);
    assert_eq!(res[0].0, "u2");
    assert_eq!(res[1].0, "u3");
}

#[test]
fn test_automatic_updated_at() {
    let mut db = Database::new();
    db.create_collection("users".to_string());

    let mut fields = KeyMap::new();
    fields.insert("nome".to_string(), Value::String("Original".to_string()));
    db.create_document("users", "u1".to_string(), Document::new(fields)).unwrap();

    let doc_before = db.get_document("users", "u1").unwrap();
    assert!(doc_before.fields.get("_updated_at").is_none());

    let mut updates = KeyMap::new();
    updates.insert("nome".to_string(), Value::String("Updated".to_string()));
    db.update_document("users", "u1", updates).unwrap();

    let doc_after = db.get_document("users", "u1").unwrap();
    assert!(doc_after.fields.get("_updated_at").is_some());
    if let Some(Value::Number(ts)) = doc_after.fields.get("_updated_at") {
        assert!(f64::from_bits(*ts) > 0.0);
    } else {
        panic!("_updated_at should be a Number");
    }
}
