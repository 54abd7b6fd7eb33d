//! An ADS client library for Beckhoff PLCs: the protocol, the PLC data types
//! and the dynamic symbol decoding, with their contracts.
pub mod le;
pub mod strs;
pub mod timestamp;
pub mod ordmap;
pub mod symbol;
pub mod netid;
pub mod protocol;
pub mod index;
pub mod low;
pub mod data_types;
pub mod params;
pub mod plc_client;
pub mod client;
pub mod ads;
pub mod plc_connection;
