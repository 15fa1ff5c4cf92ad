//! Host inventory, remote command and temporary secret rules of Codex Hosts.
use vstd::prelude::*;

pub mod actions;
pub mod args;
pub mod auth;
pub mod batch;
pub mod budget;
pub mod calendar;
pub mod callback;
pub mod capture;
pub mod commit;
pub mod connect;
pub mod credentials;
pub mod csv;
pub mod dispatch;
pub mod editor;
pub mod execute;
pub mod failure;
pub mod fido;
pub mod fido_setup;
pub mod form;
pub mod handle;
pub mod host_list;
pub mod hosts_app;
pub mod i18n;
pub mod id;
pub mod import;
pub mod ipc;
pub mod json;
pub mod listing;
pub mod mcp;
pub mod message;
pub mod model;
pub mod opening;
pub mod paths;
pub mod pool;
pub mod probes;
pub mod remote;
pub mod removal;
pub mod report;
pub mod secret;
pub mod secrets_app;
pub mod selection;
pub mod sheet;
pub mod status;
pub mod storage;
pub mod telnet;
pub mod temporary_secrets;
pub mod testing;
pub mod text;
pub mod theme;
pub mod tool;
pub mod tray;
pub mod trust;
pub mod webauthn;

verus! {

} // verus!
