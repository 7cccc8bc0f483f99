//! A small pastebin and URL shortener: the decisions, the renderers and the rules.

pub mod cache;
pub mod canvas;
pub mod chars;
pub mod config;
pub mod db;
pub mod draw;
pub mod error;
pub mod events;
pub mod extractors;
pub mod glyphs;
pub mod handlers;
pub mod highlighter;
pub mod html;
pub mod lines;
pub mod links;
pub mod listing;
pub mod markdown;
pub mod preview;
pub mod response;
pub mod scheme;
pub mod show;
pub mod state;
pub mod styled;
pub mod syntax;
pub mod text;
