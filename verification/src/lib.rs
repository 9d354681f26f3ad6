//! Milk Parlor: the rules of a small gateway between applications and model providers.

pub mod boundary;
pub mod capture;
pub mod config;
pub mod digest;
pub mod document;
pub mod exchange;
pub mod headers;
pub mod identity;
pub mod json;
pub mod keys;
pub mod layout;
pub mod recorder;
pub mod reply;
pub mod route;
pub mod routing;
pub mod signing;
pub mod store;
pub mod text;
pub mod upstream;
