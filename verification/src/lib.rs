//! Core logic of a desktop file opener: XDG desktop entries, MIME
//! associations, handler lists and launch commands.
pub mod application_finder;
pub mod cache;
pub mod cli;
pub mod commands;
pub mod config;
pub mod desktop_parser;
pub mod executor;
pub mod fuzzy_finder;
pub mod icon_search;
pub mod launch;
pub mod mime_associations;
pub mod mime_pattern;
pub mod mimeapps;
pub mod paths;
pub mod regex_handlers;
pub mod selector;
pub mod shell;
pub mod strmap;
pub mod target;
pub mod template;
mod text;
pub mod xdg;
