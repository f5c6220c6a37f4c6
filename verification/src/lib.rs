//! Core logic of a keyboard-driven terminal mail client: text editing
//! widgets, fuzzy recipient matching, compose/list state, spellcheck
//! protocol parsing, sync planning and the address book.

pub mod account;
pub mod app;
pub mod attach;
pub mod compose_view;
pub mod config;
pub mod editable;
pub mod error;
pub mod filebrowser;
pub mod fuzzy;
pub mod imap;
pub mod keychain;
pub mod keys;
pub mod laws;
pub mod mime;
pub mod mailparse;
pub mod layout;
pub mod notification;
pub mod send;
pub mod setup;
pub mod smtp;
pub mod spellcheck;
pub mod store;
pub mod sync;
pub mod text;
pub mod theme;
pub mod types;
pub mod updates;
