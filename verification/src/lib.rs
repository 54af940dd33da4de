//! Home lab inventory: the validated data model, IPv4 address planning,
//! authentication helpers and the request rules of the web service.

pub mod api;
pub mod auth;
pub mod ident;
pub mod inventory;
pub mod ipv4;
pub mod laws;
pub mod model;
pub mod order;
pub mod outcomes;
pub mod removal;
pub mod session;
pub mod text;
pub mod validation;
