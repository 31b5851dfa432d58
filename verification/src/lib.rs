//! Verified core of a self-hosted media streaming server: credential
//! encoding, session validation, access control over the media namespace,
//! content indexing and subtitle conversion.

pub mod authenticator;
pub mod constant;
pub mod content;
pub mod display;
pub mod json;
pub mod logger;
pub mod middleware;
pub mod natural;
pub mod parser;
pub mod paths;
pub mod responses;
pub mod routes;
pub mod secure;
pub mod settings;
pub mod startup;
pub mod store;
pub mod subtitles;
pub mod text;
