//! Authentication core: credential records and account flows, a stateless
//! signed session token service, the session check that guards protected
//! routes, and the translation of domain errors into transport responses.

pub mod auth_routes;
pub mod crypto;
pub mod decimal;
pub mod error;
pub mod jwt;
pub mod password;
pub mod session;
pub mod store;
pub mod strutil;
pub mod user_routes;
