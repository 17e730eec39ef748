//! Verified core of a process cage: policies over files, domains and syscalls, the
//! decisions of the enforcer, and the parsers that feed it.
use vstd::prelude::*;

pub mod doctor;
pub mod enforcer;
pub mod kernel;
pub mod logging;
pub mod monitor;
pub mod path;
pub mod policy;
pub mod policy_generator;
pub mod policy_sync_compiler;
pub mod sorted;
pub mod text;
pub mod watch;
