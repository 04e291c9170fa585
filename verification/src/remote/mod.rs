//! Serving on another machine, over a control channel and a tailnet.

pub mod bootstrap;
pub mod commands;
pub mod doctor;
pub mod install;
pub mod lifecycle;
pub mod listing;
pub mod provision;
pub mod publish;
pub mod refusal;
pub mod scripted;
pub mod serve;
pub mod services;
pub mod session;
pub mod shell;
pub mod tailnet;
pub mod transport;
