//! Verified core of the RAISE JSON database: JSON values, queries, schema
//! validation, JSON-LD processing and migration versions.
pub mod json;
pub mod text;
pub mod json_text;
pub mod error;
pub mod version;
pub mod query;
pub mod optimizer;
pub mod optimizer_laws;
pub mod parser;
pub mod query_json;
pub mod paths;
pub mod collections;
pub mod vocabulary;
pub mod ontology;
pub mod context;
pub mod processor;
pub mod schema_registry;
pub mod schema_uri;
pub mod schema_validator;
pub mod schema_defaults;
pub mod query_eval;
pub mod query_exec;
pub mod query_laws;
pub mod migrations;
pub mod system_index;
pub mod documents;
pub mod changes;
pub mod prepare;
pub mod ingest;
pub mod frontend;
pub mod dev_setup;
pub mod index_maps;
pub mod index_ops;
pub mod text_index;
pub mod index_admin;
pub mod semantic;
pub mod data_provider;
pub mod bootstrap;
pub mod compute;
pub mod genetics;
pub mod sql_ast;
pub mod sql;
pub mod graph_text;
