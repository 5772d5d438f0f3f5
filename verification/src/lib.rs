//! # medoxido
//!
//! A personal medication-tracking core: the entity model, the medication
//! name-validation rules, and the data-operations contract of an in-memory
//! document store (create/read/update/delete/list plus the aggregate report
//! queries that join doses, inventory stores, medications and notes).
//!
//! Every executable function in this crate carries a contract checked by
//! Verus; the HTTP and persistence layers live outside the library and talk
//! to it through plain values.

pub mod config;
pub mod datastore;
pub mod error;
pub mod ident;
pub mod model;
pub mod reports;
pub mod validation;
