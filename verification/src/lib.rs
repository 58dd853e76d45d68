//! A cockpit for one workflow: a base checkout and several sibling worktrees
//! that do independent work.
//!
//! Everything that the cockpit decides is decided here, and proved to be what it
//! says. What has to be done outside, such as running git, is asked for by
//! holding a conversation; see [`conversation`].
pub mod text;
pub mod letters;
pub mod number;
pub mod paths;
pub mod conversation;
pub mod util;
pub mod shell;
pub mod config;
pub mod model;
pub mod order;
pub mod git;
pub mod porcelain;
pub mod told;
pub mod ops;
pub mod safety;
pub mod undo;
pub mod stash;
pub mod every;
pub mod course;
pub mod turn;
pub mod journal;
pub mod report;
pub mod ui;
pub mod dashboard;
pub mod screen;
pub mod account;
