//! A small embedded SQL-style storage engine: tables with a primary key,
//! per-column page indices, size-bounded data pages of schema-less records,
//! and the `CREATE TABLE` / `CREATE INDEX` / `INSERT` / `SELECT` operations
//! over them, together with the statement parser that feeds the engine.
use vstd::prelude::*;

pub mod codec;
pub mod data;
pub mod engine;
pub mod file_paths;
pub mod insert;
pub mod laws;
pub mod metadata;
pub mod record;
pub mod sql_engine;
pub mod sql_parser;
pub mod statement;
pub mod table;
pub mod text;
pub mod value;

verus! {

} // verus!
