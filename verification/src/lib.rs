//! Traffic accounting for a network monitor: the kernel probes, the records
//! that they hand over, and the table of running totals.

pub mod capture;
pub mod flow;
pub mod flow_map;
pub mod history;
pub mod loader;
pub mod poller;
pub mod probe;
pub mod ranking;
pub mod table;
pub mod text;
pub mod traffic;
pub mod xtask;
