//! Driver framework core: BACnet/IP and Modbus TCP codecs, driver state and
//! the rules of the driver manager, each with a verified contract.

pub mod bacnet;
pub mod driver;
pub mod json;
pub mod loader;
pub mod local_io;
pub mod manager;
pub mod manager_laws;
pub mod maps;
pub mod modbus;
pub mod poll_scheduler;
pub mod rest;
pub mod text;
pub mod watch_manager;
