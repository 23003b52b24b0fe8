//! A knowledge library of climate and ocean variable standards: canonical
//! names with their units, descriptions and aliases, enriched with community
//! knowledge and quality-control test suites, and queried by name, by
//! attribute filters or by ranked search.

pub mod attrs;
pub mod catalog;
pub mod cli;
pub mod config;
pub mod filter;
pub mod ioos_categories;
pub mod knowledge;
pub mod library;
pub mod parse;
pub mod qartod;
pub mod standard;
pub mod text;
