//! A typed object-document mapping core for a graph/document database:
//! validated record identifiers, lazy foreign references, declaration-time
//! field-path descriptors, a structured condition builder with traversal,
//! fetch directives, order-by clauses, and a query assembler, together with
//! a reference in-memory storage model against which the record operations
//! (create/read/update/merge/delete/find) are specified and proved.

pub mod errors;
pub mod strutil;
pub mod value;
pub mod id;
pub mod schema;
pub mod query;
pub mod store;
pub mod model;
pub mod foreign;
pub mod models;
