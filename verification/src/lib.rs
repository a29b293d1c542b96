//! Core, editor-independent logic of the vorto modal text editor.

#![allow(unused_imports)]

pub mod text;
pub mod action;
pub mod parse;
pub mod tokenize;
pub mod cursor;
pub mod eval;
pub mod editing;
pub mod picker;
pub mod surround;
pub mod visual;
pub mod commands;
pub mod pane;
pub mod buffer_ref;
pub mod jump;
pub mod toast;
pub mod agent;
pub mod mux;
pub mod keys;
pub mod copilot;
pub mod document;
pub mod sleeping;
pub mod bookmark;
pub mod lsp_coordinator;
pub mod direct;
pub mod lsp_status;
pub mod reload;
pub mod save;
pub mod completion;
pub mod operator;
pub mod insert_keys;
pub mod goto;
pub mod input;
pub mod multi_cursor;
pub mod plan;

