//! Modbus register types and mappings.

use vstd::prelude::*;

use super::fc;
use crate::bacnet::object::{ONE_BITS, ZERO_BITS};
use crate::text::text;

verus! {

/// Modbus register type determines which function code to use for read/write.
#[derive(Debug, Clone, Copy, PartialEq, Eq, Hash, Structural)]
pub enum RegisterType {
    /// Holding Register: FC 03 read, FC 06/16 write.
    HoldingRegister,
    /// Input Register: FC 04 read, read-only.
    InputRegister,
    /// Coil: FC 01 read, FC 05 write.
    Coil,
    /// Discrete Input: FC 02 read, read-only.
    DiscreteInput,
}

/// The function code that reads a register type.
pub open spec fn read_code(t: RegisterType) -> u8 {
    match t {
        RegisterType::Coil => fc::READ_COILS,
        RegisterType::DiscreteInput => fc::READ_DISCRETE_INPUTS,
        RegisterType::HoldingRegister => fc::READ_HOLDING_REGISTERS,
        RegisterType::InputRegister => fc::READ_INPUT_REGISTERS,
    }
}

/// Whether a register type can be written.
pub open spec fn writable(t: RegisterType) -> bool {
    t is HoldingRegister || t is Coil
}

/// Whether a register type holds a single bit.
pub open spec fn single_bit(t: RegisterType) -> bool {
    t is Coil || t is DiscreteInput
}

/// The short label of a register type.
pub open spec fn label_of(t: RegisterType) -> Seq<char> {
    match t {
        RegisterType::HoldingRegister => "HR"@,
        RegisterType::InputRegister => "IR"@,
        RegisterType::Coil => "CO"@,
        RegisterType::DiscreteInput => "DI"@,
    }
}

/// The short label of a register type in lower case.
pub open spec fn lower_label_of(t: RegisterType) -> Seq<char> {
    match t {
        RegisterType::HoldingRegister => "hr"@,
        RegisterType::InputRegister => "ir"@,
        RegisterType::Coil => "co"@,
        RegisterType::DiscreteInput => "di"@,
    }
}

impl RegisterType {
    /// Function code for reading this register type.
    pub fn read_fc(&self) -> (res: u8)
        ensures
            res == read_code(*self),
    {
        match self {
            RegisterType::Coil => fc::READ_COILS,
            RegisterType::DiscreteInput => fc::READ_DISCRETE_INPUTS,
            RegisterType::HoldingRegister => fc::READ_HOLDING_REGISTERS,
            RegisterType::InputRegister => fc::READ_INPUT_REGISTERS,
        }
    }

    /// Whether this register type is writable.
    pub fn is_writable(&self) -> (res: bool)
        ensures
            res == writable(*self),
    {
        matches!(self, RegisterType::HoldingRegister | RegisterType::Coil)
    }

    /// Short label for display / learn grid.
    pub fn label(&self) -> (res: &'static str)
        ensures
            res@ == label_of(*self),
    {
        match self {
            RegisterType::HoldingRegister => "HR",
            RegisterType::InputRegister => "IR",
            RegisterType::Coil => "CO",
            RegisterType::DiscreteInput => "DI",
        }
    }

    /// Short label in lower case, for the names of learnt points.
    pub fn lower_label(&self) -> (res: &'static str)
        ensures
            res@ == lower_label_of(*self),
    {
        match self {
            RegisterType::HoldingRegister => "hr",
            RegisterType::InputRegister => "ir",
            RegisterType::Coil => "co",
            RegisterType::DiscreteInput => "di",
        }
    }

    /// The register type as text: its label.
    pub fn to_string(&self) -> (res: String)
        ensures
            res@ == label_of(*self),
    {
        text(self.label())
    }
}

/// A single Modbus register mapping for a point.
///
/// The raw number of a register becomes the engineering value by
/// `engineering_value = raw * scale + offset`.
#[derive(Debug, Clone, Copy, PartialEq, Eq, Structural)]
pub struct ModbusRegister {
    /// Register address (0-based).
    pub address: u16,
    /// Register type (determines FC used for read/write).
    pub register_type: RegisterType,
    /// Bits of the double-precision scale factor.
    pub scale: u64,
    /// Bits of the double-precision offset.
    pub offset: u64,
}

impl ModbusRegister {
    /// Create a new register mapping with default scale (one) and offset (zero).
    pub fn new(address: u16, register_type: RegisterType) -> (res: Self)
        ensures
            res == (ModbusRegister {
                address,
                register_type,
                scale: ONE_BITS,
                offset: ZERO_BITS,
            }),
    {
        ModbusRegister { address, register_type, scale: ONE_BITS, offset: ZERO_BITS }
    }

    /// Create with explicit scale and offset, given by their bits.
    pub fn with_scaling(
        address: u16,
        register_type: RegisterType,
        scale: u64,
        offset: u64,
    ) -> (res: Self)
        ensures
            res == (ModbusRegister { address, register_type, scale, offset }),
    {
        ModbusRegister { address, register_type, scale, offset }
    }
}

} // verus!
