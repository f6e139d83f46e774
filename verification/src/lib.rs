//! A verified core for a bridge that lets external extensions, written in any
//! language, register with the daemon over HTTP and take part in its lifecycle.
pub mod text;
pub mod types;
pub mod ipaddr;
pub mod validation;
pub mod health;
pub mod webhook;
pub mod proxy;
pub mod schema;
pub mod store;
pub mod handlers;
pub mod ext;
pub mod laws;
