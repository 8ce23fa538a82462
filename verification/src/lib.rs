//! Verified core of the salmon-watch desktop client.

pub mod address;
pub mod app;
pub mod autostart;
pub mod bearer_token;
pub mod build_info;
pub mod cli;
pub mod config;
pub mod domain;
pub mod logging;
pub mod network;
pub mod notification;
pub mod persistence;
pub mod runtime;
pub mod settings;
pub mod setup;
pub mod table;
pub mod text;
pub mod timestamp;
pub mod tray;
pub mod ui;
pub mod window_geometry;
