//! Syslog ingestion: lines arrive over UDP and TCP in either of two formats, or
//! in none, and each becomes one normalized record that is counted, stored
//! within a ceiling, and published to live subscribers.
//!
//! - [`grammar`] says where the fields of a line lie; [`scan`] computes it;
//!   [`parser`] makes the record; [`formats`] states what the parser makes of
//!   well-formed lines.
//! - [`listener`] decides which of the arriving data is a line.
//! - [`sink`] is the funnel that every record passes through, over [`stats`],
//!   a store ([`store`] in memory, [`record`] for a table elsewhere) and
//!   [`broadcast`]; [`session`] is a subscriber's side of it.
//! - [`query`] puts requests for stored records; [`sender`] composes lines.
//! - [`ambient`] holds what comes from the surroundings; [`text`] and [`order`]
//!   hold what the others share.

pub mod ambient;
pub mod broadcast;
pub mod formats;
pub mod grammar;
pub mod listener;
pub mod message;
pub mod order;
pub mod parser;
pub mod query;
pub mod record;
pub mod scan;
pub mod sender;
pub mod session;
pub mod sink;
pub mod stats;
pub mod store;
pub mod text;
