//! Discovery of SAT>IP servers on the local network segment.
//!
//! The library holds the verified core of an SSDP-style discovery pipeline:
//! parsing textual endpoints, rendering the multicast M-SEARCH request,
//! parsing the header-only replies, fetching and reading the advertised
//! description document, and the orchestrating state machine that composes
//! those steps.  All socket work stays outside the library; callers feed the
//! state machine with the datagrams and documents the network produced.

pub mod addr;
pub mod config;
pub mod description;
pub mod discovery;
pub mod errors;
pub mod fetch;
pub mod request;
pub mod response;
pub mod text;
pub mod uri;
