//! A web framework's core: routing requests to handlers, turning handler
//! results into responses, answering failures with error catchers, and
//! reading request bodies and writing responses in pieces.
//!
//! Every decision is a verified function; waiting on the network and on
//! asynchronous handlers is left to the caller, which hands the results
//! back (see `data::DataStream`, `rocket::Routing`, `rocket::after_route`
//! and `wire::Chunker`).

pub mod data;
pub mod http;
pub mod local;
pub mod outcome;
pub mod request;
pub mod response;
pub mod rocket;
pub mod router;
pub mod text;
pub mod uri;
pub mod wire;
