//! Modbus function codes.

use vstd::prelude::*;

verus! {

pub const READ_COILS: u8 = 0x01;

pub const READ_DISCRETE_INPUTS: u8 = 0x02;

pub const READ_HOLDING_REGISTERS: u8 = 0x03;

pub const READ_INPUT_REGISTERS: u8 = 0x04;

pub const WRITE_SINGLE_COIL: u8 = 0x05;

pub const WRITE_SINGLE_REGISTER: u8 = 0x06;

/// Function code 16.
pub const WRITE_MULTIPLE_REGISTERS: u8 = 0x10;

} // verus!
