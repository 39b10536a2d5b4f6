//! Verified analytics core for Discord data exports.
pub mod text;
pub mod numfmt;
pub mod dates;
pub mod counts;
pub mod json;
pub mod patterns;
pub mod messages;
pub mod activity;
pub mod sessions;
pub mod order;
pub mod insights;
pub mod compare;
pub mod channels;
pub mod downloads;
pub mod tickets;
pub mod events;
pub mod analysis;
pub mod event_lines;
pub mod ui;
pub mod config;
pub mod activity_map;
pub mod nav;
pub mod search;
