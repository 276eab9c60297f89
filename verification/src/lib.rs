//! Incremental materialization of SQL query files into JSON documents.
//!
//! The library holds the verified logic of the pipeline: stripping SQL
//! comments, deciding staleness of an output file, deriving output paths,
//! coercing column values and rendering the JSON document, and driving a
//! per-file pipeline as a state machine whose I/O actions are performed by
//! the surrounding program.

pub mod config;
pub mod errors;
pub mod file_handler;
pub mod json_generator;
pub mod numbers;
pub mod paths;
pub mod pipeline;
pub mod sql_executor;
pub mod text;
