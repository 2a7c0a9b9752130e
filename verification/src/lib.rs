//! Waterbase: a small document store. Collections hold documents of named
//! JSON-like fields; a query engine filters, orders and pages them; sessions
//! and credentials guard the API. Everything here is in-memory logic:
//! persistence, HTTP and HTML live in `app/`.

pub mod keys;
pub mod key_map;
pub mod number;
pub mod value;
pub mod compare;
pub mod clock;
pub mod document;
pub mod query;
pub mod auth;
pub mod storage;
pub mod dashboard;
pub mod requests;
pub mod css;
pub mod laws;

pub use compare::{compare_for_sort, compare_values, WhereOp};
pub use document::{Collection, Database, Document};
pub use key_map::KeyMap;
pub use query::{OrderBy, OrderDirection, Query, WhereFilter};
pub use value::Value;
