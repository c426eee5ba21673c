//! VectorGuard: the verified core of a runtime security daemon — event
//! normalization, scope filtering, the fast-path rule engine, kernel block
//! keys, incident records, the AI advisor's pattern tracking and the TUI
//! state machine.
pub mod adapter;
pub mod advice;
pub mod ai_advisor;
pub mod approval;
pub mod cli;
pub mod common;
pub mod config;
pub mod config_edit;
pub mod context;
pub mod enforcer;
pub mod event;
pub mod fast_path;
pub mod incident;
pub mod pattern;
pub mod rules;
pub mod scope;
pub mod slow_path;
pub mod tui;
pub mod text;
