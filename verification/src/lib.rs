//! An in-process observability probe: typed configuration, an extension
//! registry, a catalog of queryable tables and span tracing.

pub mod bootstrap;
pub mod cli;
pub mod config;
pub mod convert;
pub mod dto;
pub mod ele;
pub mod engine;
pub mod extension;
pub mod file_api;
pub mod ieee;
pub mod python;
pub mod span_tree;
pub mod text;
pub mod trace;
pub mod trace_table;
pub mod web;
