//! Time tracking and invoicing core: the data model, the role rules, the
//! schema migration plan and the project ledger store.
pub mod auth;
pub mod data;
pub mod invoice;
pub mod ledger;
pub mod listing;
pub mod membership;
pub mod migrate;
pub mod service;
pub mod store;
pub mod table;
pub mod text;
pub mod upgrade;
