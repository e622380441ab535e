//! Incremental decoder for the Zabbix length-framed TCP protocol: header
//! parsing, frame reassembly, protocol probing and request/response pairing.
pub mod header;
pub mod frame;
pub mod probe;
pub mod transaction;
pub mod state;
pub mod log;
pub mod laws;
