pub mod branch_order;
pub mod cli;
pub mod commands;
pub mod docs;
pub mod error;
pub mod keyed;
pub mod markdown;
pub mod outside;
pub mod registry;
pub mod search_index;
pub mod setup;
pub mod report;
pub mod show;
pub mod template;
pub mod text;
pub mod tree;
pub mod update;
pub mod version;
