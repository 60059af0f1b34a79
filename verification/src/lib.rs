//! Verified core of an SSDP (Simple Service Discovery Protocol) discovery
//! tool: building the M-SEARCH request, parsing device responses, and
//! deduplicating discovered devices by their Unique Service Name.

pub mod discovery;
pub mod headers;
pub mod parse;
pub mod record;
pub mod registry;
pub mod request;
pub mod text;
pub mod utf8;
