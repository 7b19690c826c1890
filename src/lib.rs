//! Ingestion engine of a self-hosted feed aggregator: the store of feeds and
//! items, content identity and classification of entries, and the decisions of
//! a refresh cycle.

pub mod model;
pub mod store;
pub mod identity;
pub mod entry;
pub mod text;
pub mod schedule;
pub mod refresh;
pub mod laws;
pub mod db;
pub mod forms;
pub mod config;
pub mod cgi;
