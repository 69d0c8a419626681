//! The runtime around the machine: API stubs and dispatch, threads, and scenarios.

pub mod api_laws;
pub mod fake_api;
pub mod names;
pub mod plant;
pub mod report;
pub mod report_laws;
pub mod scenario;
pub mod scenario_laws;
pub mod stub_laws;
pub mod stubs;
pub mod threads;
pub mod trace;
pub mod windows;
pub mod worker;
pub mod worker_laws;
