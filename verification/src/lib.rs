//! Collects VLESS proxy links, checks and deduplicates them, builds the client
//! configuration that tests each one, and ranks what passed.
#![allow(unused_imports)]

pub mod config;
pub mod config_builder;
pub mod config_laws;
pub mod encoding;
pub mod finalizer;
pub mod harvest;
pub mod harvest_laws;
pub mod json;
pub mod ledger;
pub mod link;
pub mod list_laws;
pub mod node;
pub mod node_laws;
pub mod order;
pub mod params;
pub mod query;
pub mod report;
pub mod run_laws;
pub mod schedule;
pub mod speed;
pub mod stage_laws;
pub mod stages;
pub mod text;
pub mod text_laws;
pub mod utils;
pub mod vless_collector;
