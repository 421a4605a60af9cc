//! Modbus TCP driver: frame codec for the function codes 01-06 and 16, register
//! mapping and driver rules.

pub mod driver;
pub mod fc;
pub mod frame;
pub mod laws;
pub mod order;
pub mod register;

pub use driver::ModbusDriver;
pub use frame::ModbusFrame;
pub use register::{ModbusRegister, RegisterType};
