//! Conversion core for spreadsheet link tables: header resolution, merged-cell
//! repair, rule-driven value transformation and field validation, with the
//! data model of conversion maps and canonical link rows.

pub mod text;
pub mod distance;
pub mod fields;
pub mod model;
pub mod builtins;
pub mod transform;
pub mod merge;
pub mod resolver;
pub mod simple_map;
pub mod service;
pub mod rows;
pub mod compat;
pub mod config;
pub mod contracts;
pub mod rules;
