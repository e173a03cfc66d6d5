//! Verified core logic of the EasyTier peer discovery, web gateway helpers,
//! meshtier codec and uptime-monitor models.

pub mod nodes;
pub mod num;
pub mod server;
pub mod startup;
pub mod cache;
pub mod cidr;
pub mod default_network;
pub mod discovery;
pub mod gateway;
pub mod idn;
pub mod manager;
pub mod mesh;
pub mod text;
pub mod uptime;
pub mod urls;
pub mod uuids;

use vstd::prelude::*;

verus! {

} // verus!
