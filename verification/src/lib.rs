//! Interactive network policy for a sandbox proxy.

pub mod command;
pub mod decision;
pub mod dialog;
pub mod escape;
pub mod filter;
pub mod filter_laws;
pub mod host;
pub mod host_laws;
pub mod ip_literal;
pub mod launch;
pub mod launch_laws;
pub mod learned;
pub mod notify;
pub mod platform;
pub mod policy;
pub mod policy_laws;
pub mod process;
pub mod runtime;
pub mod script;
pub mod table;
pub mod text;
pub mod text_laws;
pub mod version;
