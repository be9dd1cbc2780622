//! Harvesting of browser-identity profiles: the profile entity and its
//! default template, the `Set-Cookie` extractor, the decisions of a fetch
//! batch and the line framing of the persisted pool.

pub mod text;
pub mod cookie;
pub mod profile;
pub mod fetch;
pub mod store;
