//! MatrixCode: the verified core of a terminal coding agent.

pub mod answers;
pub mod app;
pub mod atomicity;
pub mod bench;
pub mod carrying;
pub mod cli;
pub mod command;
pub mod course;
pub mod disk;
pub mod ending;
pub mod failures;
pub mod fsutil;
pub mod guarantees;
pub mod history;
pub mod input;
pub mod io;
pub mod journal;
pub mod keeping;
pub mod mending;
pub mod numbers;
pub mod operation;
pub mod order;
pub mod paths;
pub mod progress;
pub mod recovery;
pub mod refusals;
pub mod replacement;
pub mod session;
pub mod session_laws;
pub mod session_store;
pub mod succession;
pub mod text;
pub mod tui;
