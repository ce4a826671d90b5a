//! brain-dump core: projects, phases and tasks in a small graph store.
//!
//! - `models`: the records (nodes, edges, tags, status history) and their views;
//! - `templates`: the markdown that pre-fills a new node's description;
//! - `db`: the store's five tables, the store that holds them under the
//!   schema's constraints as its type invariant, and the error type of queries;
//! - `tables`: the queries on the tables themselves, each with an exact
//!   contract over the tables' view;
//! - `queries`: the queries on the store, which keep its invariant, and the
//!   fresh identifiers and timestamps that creating rows draws;
//! - `schema`: the SQL schema and when a file needs it;
//! - `schema_check`: whether rows read back meet the schema's constraints;
//! - `render`: the text that the command line prints for nodes;
//! - `graph`: reachability along typed edges, behind cascading deletes and
//!   dependency-cycle detection;
//! - `rows`: copying rows, and the one filter that selects them;
//! - `order`: the orders in which queries return rows, and a stable sort;
//! - `text`: string equality, order and ASCII case folding;
//! - `laws`: what holds of the queries together (reading back what was
//!   written, the hierarchy rule, the status log, the cascade of a delete,
//!   acyclic dependencies, the schema's constraints).
pub mod db;
pub mod graph;
pub mod laws;
pub mod models;
pub mod order;
pub mod queries;
pub mod tables;
pub mod render;
pub mod rows;
pub mod schema;
pub mod schema_check;
pub mod templates;
pub mod text;
