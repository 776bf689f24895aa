//! The decision core of the `rustd` service manager.

pub mod boot;
pub mod dbus;
pub mod deps;
pub mod dynamic_user;
pub mod emergency;
pub mod event;
pub mod filesystem_unit;
pub mod generator;
pub mod glob;
pub mod ipc;
pub mod ipc_server;
pub mod job;
pub mod journal;
pub mod kill_context;
pub mod limits;
pub mod logind;
pub mod manager;
pub mod ml_weave;
pub mod mount_setup;
pub mod names;
pub mod paths;
pub mod service;
pub mod spawn;
pub mod sys;
pub mod text;
pub mod unit;
