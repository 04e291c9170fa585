//! The verified core of the `rocm` command line tool.

pub mod automations;
pub mod bootstrap;
pub mod cli_progress;
pub mod dash;
pub mod dash_seam;
pub mod endpoint_keys;
pub mod failure;
pub mod json;
pub mod logging;
pub mod order;
pub mod remote;
pub mod runtime_services;
pub mod serve_port;
pub mod serve_summary;
pub mod sizes;
pub mod storage;
pub mod text;
pub mod uninstall;
