//! Core pipeline of a desktop resource inspector: it turns the unordered
//! stream of (predicate, value, datatype) triples describing one subject into
//! a stable, navigable, exportable table, tracking for every cell both a
//! human-friendly display form and the exact native form.

pub mod aggregate;
pub mod classify;
pub mod export;
pub mod handler;
pub mod label;
pub mod options;
pub mod rows;
pub mod strutil;
pub mod truncate;
pub mod vocab;
