//! The signing service: stored key pairs, requests and responses, and the
//! request flows themselves. Transport lives outside the library.
pub mod handlers;
pub mod models;
pub mod store;
