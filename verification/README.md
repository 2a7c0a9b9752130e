# Waterbase

A small document database: collections of documents made of named JSON-like
fields, a query engine (filters, ordering, offset, limit), and the account and
session logic of its REST API and dashboard.

- `src/` is the library, verified with Verus: sorted string-keyed maps
  (`key_map`), binary64 numbers compared on their encodings (`number`),
  values and their ordering (`value`, `compare`), documents, collections and
  the database (`document`), queries (`query`), credentials and sessions
  (`auth`), file layout (`storage`), the dashboard menu (`dashboard`), request
  helpers (`requests`), the style sheet (`css`), and properties that relate
  several operations (`laws`).
- `app/` is the server: HTTP handlers (actix-web), HTML pages (maud), JSON and
  MessagePack forms of the values (serde), persistence on disk, and the
  database shared between requests (tokio locks).
- `tests/` exercises the library.
