//! Verified decision logic for a browser-driven torrent search and download tool.

pub mod app;
pub mod app_run;
pub mod bignat;
pub mod browser;
pub mod cli;
pub mod config;
pub mod config_laws;
pub mod discovery;
pub mod discovery_laws;
pub mod discovery_run;
pub mod display_laws;
pub mod dom;
pub mod download;
pub mod download_laws;
pub mod download_run;
pub mod downloader;
pub mod form_laws;
pub mod health;
pub mod health_laws;
pub mod model;
pub mod order;
pub mod paths;
pub mod plain;
pub mod policy_laws;
pub mod ranking;
pub mod row_laws;
pub mod run_laws;
pub mod search;
pub mod search_laws;
pub mod search_run;
pub mod selection;
pub mod session_laws;
pub mod session_run;
pub mod size;
pub mod size_laws;
pub mod submission_run;
pub mod text;
pub mod value_laws;
pub mod weburl;
