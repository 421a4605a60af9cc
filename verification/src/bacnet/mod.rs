//! BACnet/IP driver: codec, device registry, transactions and driver rules.

pub mod config;
pub mod cov;
pub mod device_laws;
pub mod discovery;
pub mod driver;
pub mod error;
pub mod exchange;
pub mod exchange_laws;
pub mod fault_laws;
pub mod frame;
pub mod learn;
pub mod learn_laws;
pub mod object;
pub mod plan;
pub mod point_laws;
pub mod reply;
pub mod sync;
pub mod transaction;
pub mod value;
pub mod wire;

pub use config::{BacnetConfig, BacnetLoader, BacnetObjectConfig, DEFAULT_BACNET_PORT};
pub use discovery::{DeviceInfo, DeviceRegistry, SocketAddress};
pub use driver::BacnetDriver;
pub use error::BacnetError;
