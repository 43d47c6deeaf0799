pub mod add;
pub mod backfill;
pub mod browser_host;
pub mod cli;
pub mod clip;
pub mod config;
pub mod dedup;
pub mod enrich;
pub mod docling;
pub mod docling_json;
pub mod docling_walk;
pub mod export;
pub mod fetch;
pub mod formula;
pub mod index;
pub mod inline_math;
pub mod keymap;
pub mod kitty;
pub mod metadata;
pub mod model;
pub mod oa_package;
pub mod passage_rows;
pub mod polaris;
pub mod remote;
pub mod proposals;
pub mod semantic;
pub mod storage;
pub mod text;
pub mod theme;
pub mod tui;
pub mod update;
pub mod validate;
