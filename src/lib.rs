//! Generation of large delimited-text datasets split into tables, each table
//! taking an exact decimal share of a per-file byte budget.
pub mod error;
pub mod export;
pub mod fraction;
pub mod laws;
pub mod schema;
pub mod table;
pub mod text;
