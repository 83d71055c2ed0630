//! Core logic of the Hope Agent desktop assistant: model failover decisions,
//! plan-mode bookkeeping, skill catalog parsing and prompt building, process
//! output bookkeeping, memory text helpers and assorted small formats.

pub mod failover;
pub mod text;
pub mod keyed;
pub mod skills;
pub mod frontmatter_lines;
pub mod paths;
pub mod catalog;
pub mod plan;
pub mod questions;
pub mod process;
pub mod provider;
pub mod session;
pub mod memory;
pub mod memory_prompt;
pub mod memory_export;
pub mod memory_sql;
pub mod embedding;
pub mod logging;
pub mod menu_labels;
pub mod proxy;
pub mod cli;
pub mod extract;
pub mod searxng;
