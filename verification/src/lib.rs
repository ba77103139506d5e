#![allow(unused_imports)]

use vstd::prelude::*;

pub mod text;
pub mod common;
pub mod platform;
pub mod json;
pub mod json_text;
pub mod datetime_parse;
pub mod ranking;
pub mod indices;
pub mod models;
pub mod filters;
pub mod filter_parser;
pub mod join_parser;
pub mod request_values;
pub mod functions;
pub mod qdrant;
pub mod payload;
pub mod encoder;
pub mod validation;
pub mod document_vectors;
pub mod config_validation;
pub mod query_validation;
pub mod search_filter;
pub mod upsert;
pub mod upsert_run;
pub mod ingress;
pub mod delete_run;
pub mod queue_poller;
pub mod fusion;
pub mod templates;
pub mod search_facet;
pub mod search_group;
pub mod group_run;
pub mod search_join;
pub mod config_cache;
pub mod query_settings;
pub mod search_run;
pub mod stats;
pub mod model_validation;
pub mod auth;
pub mod lock_client;
pub mod bunny_talk;
pub mod metrics;
pub mod vectors;
pub mod api;
pub mod handlers;
pub mod routes;
pub mod settings;
pub mod export;

verus! {

} // verus!
