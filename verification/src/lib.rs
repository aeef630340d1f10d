//! A small product-catalog library: a store of product records with
//! create/read/update/delete operations, a pure query pipeline
//! (filter, sort, paginate), a fan-out hub that pushes newly created
//! products to subscribers, and a background-generation control.
//!
//! Prices are carried as integer cents so that money comparisons and
//! arithmetic stay exact.

pub mod models;
pub mod generator;
pub mod hub;
pub mod query;
pub mod store;
pub mod text;
pub mod validation;
