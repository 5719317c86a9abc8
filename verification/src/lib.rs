//! An office directory store: persons, groups and jobs, held in relational
//! tables and reached through a repository of single-statement operations.
//!
//! The store itself lives in memory; every operation carries a contract that
//! pins down exactly which rows it returns or how it rewrites a table.
//! Persisting the tables to disk, and the command transport towards a UI, are
//! left to the surrounding application.

pub mod db;
pub mod laws;
pub mod model;
pub mod models;
