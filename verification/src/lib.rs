//! A local parameter store that speaks the AWS Systems Manager Parameter
//! Store API: request validation, the versioned store with its labels and
//! tags, the listings with their filters and pages, SigV4 request signing,
//! and the encryption of secure values and of the database key.

pub mod error;
pub mod model;
pub mod num;
pub mod text;
pub mod split;
pub mod order;
pub mod hex;
pub mod validate;
pub mod paging;
pub mod crypto;
pub mod values;
pub mod store;
pub mod api;
pub mod queries;
pub mod labels;
pub mod listing;
pub mod sigv4;
pub mod auth;
pub mod account;
pub mod dbkey;
pub mod config;
pub mod routing;
pub mod tls;
pub mod invariants;
pub mod tags;
