//! Wally: the decision logic of an interactive Git companion.
pub mod text;
pub mod stats;
pub mod tag;
pub mod conflict;
pub mod update;
pub mod resolve;
pub mod sync;
pub mod stage;
pub mod input;
pub mod commit;
pub mod branch;
pub mod cli;
pub mod help;
pub mod menu;
pub mod models;
pub mod templates;
pub mod tree;
pub mod push;
pub mod reset;
pub mod git;
