//! Remote-management agent logic.
use vstd::prelude::*;

pub mod ad;
pub mod argv;
pub mod command;
pub mod connection;
pub mod console_ad;
pub mod crypto;
pub mod dispatch;
pub mod files;
pub mod fs;
pub mod glob;
pub mod heartbeat;
pub mod hosted;
pub mod inventory;
pub mod json;
pub mod keyset;
pub mod logon;
pub mod naming;
pub mod num;
pub mod offer;
pub mod perf;
pub mod policy;
pub mod runner;
pub mod runs;
pub mod script;
pub mod scripts;
pub mod seen;
pub mod services;
pub mod sessions;
pub mod settle;
pub mod smbios;
pub mod snapshot;
pub mod sync;
pub mod text;
pub mod trust;
pub mod update;
pub mod updater;
pub mod wol;

verus! {

} // verus!
