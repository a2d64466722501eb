//! Verified core of the muthr orchestrator: runtime selection, model source
//! parsing, sandbox naming and argument construction, preset parsing and the
//! small text utilities they share.

pub mod config;
pub mod download;
pub mod engine;
pub mod kv;
pub mod number;
pub mod order;
pub mod sandbox;
pub mod text;
pub mod workspace;
pub mod session;
pub mod json;
pub mod containers;
pub mod preset;
pub mod model;
pub mod runtime_config;
pub mod cli;
pub mod ui;
pub mod theme;
pub mod status;
pub mod services;
pub mod setup;
pub mod audit;
