//! A TCP port scanner core: the fixed well-known port range, the service name
//! table, the order in which ports are probed, and a scan session that decides
//! which probe to dispatch next and gathers one outcome per port.
pub mod config;
pub mod ports;
pub mod report;
pub mod result;
pub mod scan;
pub mod service;
pub mod session;
