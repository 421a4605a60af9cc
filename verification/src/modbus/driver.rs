//! State and rules of the Modbus TCP driver.

use std::collections::HashMap;

use vstd::prelude::*;
use vstd::std_specs::hash::*;
use vstd::string::*;

use super::frame::{
    coil_values, register_values, two_words, ModbusFrame, ModbusFrameView,
};
use super::fc;
use super::order::{in_order, text_le, text_order_is_total, text_order_is_transitive};
use super::register::{
    label_of, lower_label_of, read_code, single_bit, writable, ModbusRegister, RegisterType,
};
use crate::bacnet::object::ONE_BITS;
use crate::driver::{
    distinct_keys, outcome_view, outcomes_view, tags_view, DriverError, DriverMeta, DriverStatus, FaultKind,
    LearnPoint, LearnPointView, PollMode, StatusView,
};
use crate::maps::keys_of;
use crate::text::{
    decimal, joined, push_decimal, text, text_decimal, text_decimal_tail,
};

verus! {

/// Modbus TCP driver with register mapping.
///
/// Maps point IDs to register addresses of a slave device. Supports coils
/// (FC 01/05), discrete inputs (FC 02), holding registers (FC 03/06/16) and
/// input registers (FC 04).
///
/// ```text
/// new()   -> pending
/// open    -> connects -> running
/// sync    -> read frames -> values
/// write   -> write frames
/// close() -> down
/// ```
///
/// When the connection is lost, reads and writes give communication faults and
/// the status becomes a fault.
#[derive(Debug)]
pub struct ModbusDriver {
    id: String,
    status: DriverStatus,
    host: String,
    port: u16,
    slave_id: u8,
    register_map: HashMap<u32, ModbusRegister>,
    connected: bool,
    transaction_counter: u16,
}

/// What a [`ModbusDriver`] knows.
pub struct ModbusDriverView {
    pub id: Seq<char>,
    pub status: StatusView,
    /// Target host address (e.g. "192.168.1.100").
    pub host: Seq<char>,
    /// TCP port (usually 502).
    pub port: u16,
    /// Modbus slave/unit ID (1-247).
    pub slave_id: u8,
    /// The register of each point.
    pub registers: Map<u32, ModbusRegister>,
    /// Whether there is an active TCP connection.
    pub connected: bool,
    /// The transaction ID of the next request.
    pub next_transaction: u16,
}

impl View for ModbusDriver {
    type V = ModbusDriverView;

    closed spec fn view(&self) -> ModbusDriverView {
        ModbusDriverView {
            id: self.id@,
            status: self.status@,
            host: self.host@,
            port: self.port,
            slave_id: self.slave_id,
            registers: self.register_map@,
            connected: self.connected,
            next_transaction: self.transaction_counter,
        }
    }
}

/// The transaction ID after `id`, counting around from the largest to 0.
pub open spec fn transaction_after(id: u16) -> u16 {
    if id == u16::MAX {
        0
    } else {
        (id + 1) as u16
    }
}

/// A driver whose next request has been numbered.
pub open spec fn numbered(d: ModbusDriverView) -> ModbusDriverView {
    ModbusDriverView { next_transaction: transaction_after(d.next_transaction), ..d }
}

/// The request that reads a register: a block of one.
pub open spec fn read_request(d: ModbusDriverView, reg: ModbusRegister) -> ModbusFrameView {
    ModbusFrameView {
        transaction_id: d.next_transaction,
        unit_id: d.slave_id,
        function_code: read_code(reg.register_type),
        data: two_words(reg.address, 1),
    }
}

/// The request that writes a register, or the complaint that it is read-only.
/// `nonzero` tells whether the engineering value differs from zero, `raw` is
/// the raw number that stands for it.
pub open spec fn write_request(
    d: ModbusDriverView,
    reg: ModbusRegister,
    nonzero: bool,
    raw: u16,
) -> Result<ModbusFrameView, (FaultKind, Seq<char>)> {
    match reg.register_type {
        RegisterType::Coil => Ok(
            ModbusFrameView {
                transaction_id: d.next_transaction,
                unit_id: d.slave_id,
                function_code: fc::WRITE_SINGLE_COIL,
                data: two_words(
                    reg.address,
                    if nonzero {
                        0xFF00
                    } else {
                        0
                    },
                ),
            },
        ),
        RegisterType::HoldingRegister => Ok(
            ModbusFrameView {
                transaction_id: d.next_transaction,
                unit_id: d.slave_id,
                function_code: fc::WRITE_SINGLE_REGISTER,
                data: two_words(reg.address, raw),
            },
        ),
        _ => Err(
            (
                FaultKind::ConfigFault,
                "register type "@ + label_of(reg.register_type) + " at address "@ + decimal(
                    reg.address as nat,
                ) + " is read-only"@,
            ),
        ),
    }
}

/// The complaint about a point without a register.
pub open spec fn unmapped_fault(point_id: u32) -> (FaultKind, Seq<char>) {
    (FaultKind::ConfigFault, "no register mapping for point "@ + decimal(point_id as nat))
}

/// A value read from a device, before it becomes an engineering value.
#[derive(Debug, Clone, Copy, PartialEq, Eq, Structural)]
pub enum ModbusReading {
    /// A coil or discrete input.
    Bit(bool),
    /// The raw number of a register, with the bits of its scale and offset.
    Raw { raw: u16, scale: u64, offset: u64 },
}

/// What the response to a read of a register says. A response without any
/// value counts as zero.
pub open spec fn reading_in(reg: ModbusRegister, data: Seq<u8>) -> Result<
    ModbusReading,
    (FaultKind, Seq<char>),
> {
    if single_bit(reg.register_type) {
        match coil_values(data, 1) {
            Ok(bits) => Ok(ModbusReading::Bit(bits.len() > 0 && bits[0])),
            Err(e) => Err(e),
        }
    } else {
        match register_values(data) {
            Ok(regs) => Ok(
                ModbusReading::Raw {
                    raw: if regs.len() > 0 {
                        regs[0]
                    } else {
                        0
                    },
                    scale: reg.scale,
                    offset: reg.offset,
                },
            ),
            Err(e) => Err(e),
        }
    }
}

/// Read the response to a read of a register.
pub fn reading(reg: &ModbusRegister, resp: &ModbusFrame) -> (res: Result<
    ModbusReading,
    DriverError,
>)
    ensures
        outcome_view(res) == reading_in(*reg, resp@.data),
{
    match reg.register_type {
        RegisterType::Coil | RegisterType::DiscreteInput => match resp.parse_coil_response(1) {
            Ok(bits) => Ok(ModbusReading::Bit(bits.len() > 0 && bits[0])),
            Err(e) => Err(e),
        },
        RegisterType::HoldingRegister | RegisterType::InputRegister => {
            match resp.parse_register_response() {
                Ok(regs) => Ok(
                    ModbusReading::Raw {
                        raw: if regs.len() > 0 {
                            regs[0]
                        } else {
                            0
                        },
                        scale: reg.scale,
                        offset: reg.offset,
                    },
                ),
                Err(e) => Err(e),
            }
        },
    }
}

/// How a connection to the device broke.
#[derive(Debug, Clone, Copy, PartialEq, Eq, Structural)]
pub enum LostBy {
    /// The connection could not be made.
    Connect,
    /// The request could not be sent.
    Send,
    /// No response came in time.
    Timeout,
    /// The response could not be read.
    Receive,
}

/// A learnt register. The scale and the offset are given by their bits where
/// they differ from one and zero; their texts are further tags of the point.
#[derive(Debug)]
pub struct LearntRegister {
    pub point: LearnPoint,
    pub scale: Option<u64>,
    pub offset: Option<u64>,
}

/// The address under which a register is listed.
pub open spec fn address_of(reg: ModbusRegister) -> Seq<char> {
    label_of(reg.register_type) + ":"@ + decimal(reg.address as nat)
}

/// Bits of the double-precision number minus zero, which equals zero.
pub const MINUS_ZERO_BITS: u64 = 0x8000_0000_0000_0000;

/// Whether a learnt register is that of a point.
pub open spec fn learnt_from(l: LearntRegister, point_id: u32, reg: ModbusRegister) -> bool {
    &&& l.point@ == (LearnPointView {
        name: lower_label_of(reg.register_type) + "_"@ + decimal(reg.address as nat),
        address: address_of(reg),
        kind: if single_bit(reg.register_type) {
            "Bool"@
        } else {
            "Number"@
        },
        unit: None,
        tags: if writable(reg.register_type) {
            seq![("pointId"@, decimal(point_id as nat)), ("writable"@, "true"@)]
        } else {
            seq![("pointId"@, decimal(point_id as nat))]
        },
    })
    &&& l.scale == if reg.scale == ONE_BITS {
        None::<u64>
    } else {
        Some(reg.scale)
    }
    &&& l.offset == if reg.offset == 0 || reg.offset == MINUS_ZERO_BITS {
        None::<u64>
    } else {
        Some(reg.offset)
    }
}

/// Whether the registers of the points in `order` are sorted by address.
pub open spec fn sorted_by_address(
    registers: Map<u32, ModbusRegister>,
    order: Seq<u32>,
) -> bool {
    forall|i: int, j: int|
        0 <= i < j < order.len() ==> text_le(
            address_of(registers[#[trigger] order[i]]),
            address_of(registers[#[trigger] order[j]]),
        )
}

/// Write down the address of a register.
fn address_text(reg: &ModbusRegister) -> (res: String)
    ensures
        res@ == address_of(*reg),
{
    text_decimal(joined(reg.register_type.label(), ":").as_str(), reg.address as u128)
}

/// Describe the register of a point.
fn learn_register(point_id: u32, reg: &ModbusRegister) -> (res: LearntRegister)
    ensures
        learnt_from(res, point_id, *reg),
        distinct_keys(res.point@.tags),
{
    let kind: &str = match reg.register_type {
        RegisterType::Coil | RegisterType::DiscreteInput => "Bool",
        RegisterType::HoldingRegister | RegisterType::InputRegister => "Number",
    };
    let id: String = text_decimal("", point_id as u128);
    proof {
        reveal_strlit("");
        assert(id@ =~= decimal(point_id as nat));
    }
    let mut tags: Vec<(String, String)> = vec![(text("pointId"), id)];
    if reg.register_type.is_writable() {
        tags.push((text("writable"), text("true")));
    }
    let name: String = text_decimal(
        joined(reg.register_type.lower_label(), "_").as_str(),
        reg.address as u128,
    );
    let res: LearntRegister = LearntRegister {
        point: LearnPoint { name, address: address_text(reg), kind: text(kind), unit: None, tags },
        scale: if reg.scale == ONE_BITS {
            None
        } else {
            Some(reg.scale)
        },
        offset: if reg.offset == 0 || reg.offset == MINUS_ZERO_BITS {
            None
        } else {
            Some(reg.offset)
        },
    };
    proof {
        reveal_strlit("pointId");
        reveal_strlit("writable");
        assert("pointId"@.len() != "writable"@.len());
        if writable(reg.register_type) {
            assert(tags_view(res.point.tags@) =~= seq![
                ("pointId"@, decimal(point_id as nat)),
                ("writable"@, "true"@),
            ]);
        } else {
            assert(tags_view(res.point.tags@) =~= seq![("pointId"@, decimal(point_id as nat))]);
        }
    }
    res
}

/// The register of a point that is read or written, or why there is nothing to
/// ask.
pub open spec fn target_of(d: ModbusDriverView, point_id: u32) -> Result<
    ModbusRegister,
    (FaultKind, Seq<char>),
> {
    if !d.connected {
        Err((FaultKind::CommFault, "not connected"@))
    } else if d.registers.contains_key(point_id) {
        Ok(d.registers[point_id])
    } else {
        Err(unmapped_fault(point_id))
    }
}

impl ModbusDriver {
    /// Create a new Modbus TCP driver.
    pub fn new(id: String, host: String, port: u16, slave_id: u8) -> (res: Self)
        ensures
            res@ == (ModbusDriverView {
                id: id@,
                status: StatusView::Pending,
                host: host@,
                port,
                slave_id,
                registers: Map::empty(),
                connected: false,
                next_transaction: 0,
            }),
    {
        broadcast use group_hash_axioms;

        ModbusDriver {
            id,
            status: DriverStatus::Pending,
            host,
            port,
            slave_id,
            register_map: HashMap::new(),
            connected: false,
            transaction_counter: 0,
        }
    }

    /// Add a register mapping for a point.
    pub fn add_register(&mut self, point_id: u32, register: ModbusRegister)
        ensures
            final(self)@ == (ModbusDriverView {
                registers: old(self)@.registers.insert(point_id, register),
                ..old(self)@
            }),
    {
        broadcast use group_hash_axioms;

        self.register_map.insert(point_id, register);
    }

    /// Get the number of mapped registers.
    pub fn register_count(&self) -> (n: usize)
        ensures
            n == self@.registers.dom().len(),
    {
        broadcast use group_hash_axioms;

        self.register_map.len()
    }

    /// Get a register mapping by point ID.
    pub fn get_register(&self, point_id: u32) -> (res: Option<&ModbusRegister>)
        ensures
            res == if self@.registers.contains_key(point_id) {
                Some(&self@.registers[point_id])
            } else {
                None
            },
    {
        broadcast use group_hash_axioms;

        self.register_map.get(&point_id)
    }

    /// Get the configured host address.
    pub fn host(&self) -> (res: &str)
        ensures
            res@ == self@.host,
    {
        self.host.as_str()
    }

    /// Get the configured TCP port.
    pub fn port(&self) -> (res: u16)
        ensures
            res == self@.port,
    {
        self.port
    }

    /// Get the configured slave ID.
    pub fn slave_id(&self) -> (res: u8)
        ensures
            res == self@.slave_id,
    {
        self.slave_id
    }

    /// Whether there is an active TCP connection.
    pub fn is_connected(&self) -> (res: bool)
        ensures
            res == self@.connected,
    {
        self.connected
    }

    /// The driver type.
    pub fn driver_type(&self) -> (res: &'static str)
        ensures
            res@ == "modbus"@,
    {
        "modbus"
    }

    /// The instance identifier.
    pub fn id(&self) -> (res: &str)
        ensures
            res@ == self@.id,
    {
        self.id.as_str()
    }

    /// The operational status.
    pub fn status(&self) -> (res: &DriverStatus)
        ensures
            res@ == self@.status,
    {
        &self.status
    }

    /// Points are polled in buckets.
    pub fn poll_mode(&self) -> (res: PollMode)
        ensures
            res == PollMode::Buckets,
    {
        PollMode::Buckets
    }

    // ── Requests ────────────────────────────────────────────

    /// Allocate the next transaction ID (wraps at 65535).
    pub fn next_txn(&mut self) -> (txn: u16)
        ensures
            txn == old(self)@.next_transaction,
            final(self)@ == numbered(old(self)@),
    {
        let txn: u16 = self.transaction_counter;
        self.transaction_counter = self.transaction_counter.wrapping_add(1);
        txn
    }

    /// Build a read request frame for the given register.
    pub fn build_read_frame(&mut self, reg: &ModbusRegister) -> (res: ModbusFrame)
        ensures
            res@ == read_request(old(self)@, *reg),
            final(self)@ == numbered(old(self)@),
    {
        let txn: u16 = self.next_txn();
        match reg.register_type {
            RegisterType::Coil => ModbusFrame::read_coils(txn, self.slave_id, reg.address, 1),
            RegisterType::DiscreteInput => ModbusFrame::read_discrete_inputs(
                txn,
                self.slave_id,
                reg.address,
                1,
            ),
            RegisterType::HoldingRegister => ModbusFrame::read_holding_registers(
                txn,
                self.slave_id,
                reg.address,
                1,
            ),
            RegisterType::InputRegister => ModbusFrame::read_input_registers(
                txn,
                self.slave_id,
                reg.address,
                1,
            ),
        }
    }

    /// Build a write request frame for the given register. `nonzero` tells
    /// whether the engineering value differs from zero and decides a coil;
    /// `raw` is the raw number that stands for it and goes to a register. A
    /// transaction ID is used up even if the register is read-only.
    pub fn build_write_frame(&mut self, reg: &ModbusRegister, nonzero: bool, raw: u16) -> (res:
        Result<ModbusFrame, DriverError>)
        ensures
            super::frame::frame_result_view(res) == write_request(old(self)@, *reg, nonzero, raw),
            final(self)@ == numbered(old(self)@),
    {
        let txn: u16 = self.next_txn();
        match reg.register_type {
            RegisterType::Coil => Ok(
                ModbusFrame::write_single_coil(txn, self.slave_id, reg.address, nonzero),
            ),
            RegisterType::HoldingRegister => Ok(
                ModbusFrame::write_single_register(txn, self.slave_id, reg.address, raw),
            ),
            RegisterType::InputRegister | RegisterType::DiscreteInput => {
                let mut msg: String = joined("register type ", reg.register_type.label());
                msg.append(" at address ");
                push_decimal(&mut msg, reg.address as u128);
                msg.append(" is read-only");
                Err(DriverError::ConfigFault(msg))
            },
        }
    }

    /// The register of a point, or the complaint that it has none.
    pub fn require_register(&self, point_id: u32) -> (res: Result<ModbusRegister, DriverError>)
        ensures
            outcome_view(res) == if self@.registers.contains_key(point_id) {
                Ok(self@.registers[point_id])
            } else {
                Err(unmapped_fault(point_id))
            },
    {
        match self.get_register(point_id) {
            Some(reg) => Ok(*reg),
            None => Err(
                DriverError::ConfigFault(
                    text_decimal("no register mapping for point ", point_id as u128),
                ),
            ),
        }
    }

    /// Reads and writes need a connection.
    pub fn require_connected(&self) -> (res: Result<(), DriverError>)
        ensures
            outcome_view(res) == if self@.connected {
                Ok(())
            } else {
                Err((FaultKind::CommFault, "not connected"@))
            },
    {
        if self.connected {
            Ok(())
        } else {
            Err(DriverError::CommFault(text("not connected")))
        }
    }

    /// What is known of points before they are read or written: their
    /// registers, or why there is nothing to ask. Without a connection nothing
    /// is asked.
    pub fn targets(&self, point_ids: &[u32]) -> (out: Vec<
        (u32, Result<ModbusRegister, DriverError>),
    >)
        ensures
            outcomes_view(out@) == point_ids@.map_values(|p: u32| (p, target_of(self@, p))),
    {
        let ghost want = point_ids@.map_values(|p: u32| (p, target_of(self@, p)));
        let mut out: Vec<(u32, Result<ModbusRegister, DriverError>)> = Vec::new();
        let mut i: usize = 0;
        assert(outcomes_view(out@) =~= want.subrange(0, 0));
        while i < point_ids.len()
            invariant
                i <= point_ids@.len(),
                want == point_ids@.map_values(|p: u32| (p, target_of(self@, p))),
                outcomes_view(out@) == want.subrange(0, i as int),
            decreases point_ids@.len() - i,
        {
            let ghost before = outcomes_view(out@);
            let res: Result<ModbusRegister, DriverError> = match self.require_connected() {
                Ok(_) => self.require_register(point_ids[i]),
                Err(e) => Err(e),
            };
            let ghost entry = (point_ids@[i as int], outcome_view(res));
            out.push((point_ids[i], res));
            assert(outcomes_view(out@) =~= before.push(entry));
            i += 1;
            assert(want.subrange(0, i as int) =~= want.subrange(0, i - 1).push(want[i - 1]));
        }
        assert(want.subrange(0, i as int) =~= want);
        out
    }

    // ── Connection ──────────────────────────────────────────

    /// The endpoint of the device, as text.
    pub fn target(&self) -> (res: String)
        ensures
            res@ == self@.host + ":"@ + decimal(self@.port as nat),
    {
        let mut out: String = self.host.clone();
        out.append(":");
        push_decimal(&mut out, self.port as u128);
        out
    }

    /// The error when the endpoint cannot be resolved.
    pub fn invalid_address(&self, description: &str) -> (e: DriverError)
        ensures
            e@ == (
                FaultKind::ConfigFault,
                "invalid address '"@ + (self@.host + ":"@ + decimal(self@.port as nat)) + "': "@
                    + description@,
            ),
    {
        let mut msg: String = joined("invalid address '", self.target().as_str());
        msg.append("': ");
        msg.append(description);
        DriverError::ConfigFault(msg)
    }

    /// The error when the endpoint resolves to nothing.
    pub fn no_address(&self) -> (e: DriverError)
        ensures
            e@ == (
                FaultKind::ConfigFault,
                "no addresses for '"@ + (self@.host + ":"@ + decimal(self@.port as nat)) + "'"@,
            ),
    {
        let mut msg: String = joined("no addresses for '", self.target().as_str());
        msg.append("'");
        DriverError::ConfigFault(msg)
    }

    /// A connection has been made: the driver is running.
    pub fn connection_made(&mut self)
        ensures
            final(self)@ == (ModbusDriverView {
                connected: true,
                status: StatusView::Running,
                ..old(self)@
            }),
    {
        self.connected = true;
        self.status = DriverStatus::Running;
    }

    /// A connection for a health check could not be made.
    pub fn check_failed(&mut self, description: &str) -> (e: DriverError)
        ensures
            final(self)@ == (ModbusDriverView {
                connected: false,
                status: StatusView::Fault("connect failed: "@ + description@),
                ..old(self)@
            }),
            e@ == (
                FaultKind::CommFault,
                "failed to connect to "@ + (old(self)@.host + ":"@ + decimal(
                    old(self)@.port as nat,
                )) + ": "@ + description@,
            ),
    {
        self.connected = false;
        self.status = DriverStatus::Fault(joined("connect failed: ", description));
        let mut msg: String = joined("failed to connect to ", self.target().as_str());
        msg.append(": ");
        msg.append(description);
        DriverError::CommFault(msg)
    }

    /// The connection broke during a request: a communication fault, or a
    /// timeout where the device stayed silent.
    pub fn connection_lost(&mut self, by: LostBy, description: &str) -> (e: DriverError)
        ensures
            ({
                let target = old(self)@.host + ":"@ + decimal(old(self)@.port as nat);
                let (status, kind, head) = match by {
                    LostBy::Connect => ("connect failed: "@, FaultKind::CommFault, "connect to "@),
                    LostBy::Send => ("write failed: "@, FaultKind::CommFault, "send to "@),
                    LostBy::Timeout => ("read failed: "@, FaultKind::Timeout, "read from "@),
                    LostBy::Receive => ("read failed: "@, FaultKind::CommFault, "read from "@),
                };
                &&& final(self)@ == (ModbusDriverView {
                    connected: false,
                    status: StatusView::Fault(status + description@),
                    ..old(self)@
                })
                &&& e@ == (kind, head + target + ": "@ + description@)
            }),
    {
        self.connected = false;
        let (status, head): (&str, &str) = match by {
            LostBy::Connect => ("connect failed: ", "connect to "),
            LostBy::Send => ("write failed: ", "send to "),
            LostBy::Timeout => ("read failed: ", "read from "),
            LostBy::Receive => ("read failed: ", "read from "),
        };
        self.status = DriverStatus::Fault(joined(status, description));
        let mut msg: String = joined(head, self.target().as_str());
        msg.append(": ");
        msg.append(description);
        match by {
            LostBy::Timeout => DriverError::Timeout(msg),
            _ => DriverError::CommFault(msg),
        }
    }

    /// The remote side closed the connection without a response.
    pub fn remote_closed(&mut self) -> (e: DriverError)
        ensures
            final(self)@ == (ModbusDriverView {
                connected: false,
                status: StatusView::Fault("connection closed by remote"@),
                ..old(self)@
            }),
            e@ == (FaultKind::CommFault, "connection closed by remote"@),
    {
        self.connected = false;
        self.status = DriverStatus::Fault(text("connection closed by remote"));
        DriverError::CommFault(text("connection closed by remote"))
    }

    /// Describe the driver after an attempt to open it: it is usable whether or
    /// not the device answered.
    pub fn opened(&self, answered: bool) -> (meta: DriverMeta)
        ensures
            meta.firmware_version is None,
            meta.extra@.len() == 0,
            distinct_keys(tags_view(meta.extra@)),
            meta.model matches Some(m) && m@ == "Modbus TCP "@ + (self@.host + ":"@ + decimal(
                self@.port as nat,
            )) + " unit "@ + decimal(self@.slave_id as nat) + if answered {
                " ("@ + decimal(self@.registers.dom().len()) + " registers)"@
            } else {
                " (offline)"@
            },
    {
        let mut model: String = self.model();
        let ghost base = model@;
        if answered {
            let count: String = text_decimal_tail(" (", self.register_count() as u128, " registers)");
            model.append(count.as_str());
        } else {
            model.append(" (offline)");
        }
        DriverMeta { firmware_version: None, model: Some(model), extra: Vec::new() }
    }

    /// The device and the unit, as text.
    fn model(&self) -> (res: String)
        ensures
            res@ == "Modbus TCP "@ + (self@.host + ":"@ + decimal(self@.port as nat)) + " unit "@
                + decimal(self@.slave_id as nat),
    {
        let mut model: String = joined("Modbus TCP ", self.target().as_str());
        model.append(" unit ");
        push_decimal(&mut model, self.slave_id as u128);
        model
    }

    /// Describe the driver after a successful health check.
    pub fn pinged(&self) -> (meta: DriverMeta)
        ensures
            meta.firmware_version is None,
            meta.extra@.len() == 0,
            distinct_keys(tags_view(meta.extra@)),
            meta.model matches Some(m) && m@ == "Modbus TCP "@ + (self@.host + ":"@ + decimal(
                self@.port as nat,
            )) + " unit "@ + decimal(self@.slave_id as nat),
    {
        DriverMeta { firmware_version: None, model: Some(self.model()), extra: Vec::new() }
    }

    /// Shut the driver down.
    pub fn close(&mut self)
        ensures
            final(self)@ == (ModbusDriverView {
                connected: false,
                status: StatusView::Down,
                ..old(self)@
            }),
    {
        self.connected = false;
        self.status = DriverStatus::Down;
    }

    // ── Learning ────────────────────────────────────────────

    /// The points that have a register, sorted by the address of it.
    fn sorted_points(&self) -> (order: Vec<u32>)
        ensures
            order@.no_duplicates(),
            order@.to_set() == self@.registers.dom(),
            sorted_by_address(self@.registers, order@),
    {
        let keys: Vec<u32> = keys_of(&self.register_map);
        let mut order: Vec<u32> = Vec::new();
        let mut i: usize = 0;
        assert(order@.to_set() =~= keys@.subrange(0, 0).to_set());
        while i < keys.len()
            invariant
                i <= keys@.len(),
                keys@.no_duplicates(),
                keys@.to_set() == self@.registers.dom(),
                order@.no_duplicates(),
                order@.to_set() == keys@.subrange(0, i as int).to_set(),
                sorted_by_address(self@.registers, order@),
            decreases keys@.len() - i,
        {
            let ghost before = order@;
            let key: u32 = keys[i];
            proof {
                assert(keys@.to_set().contains(key));
                assert forall|k: int| 0 <= k < before.len() implies self@.registers.contains_key(
                    #[trigger] before[k],
                ) by {
                    assert(before.to_set().contains(before[k]));
                    let j = choose|j: int|
                        0 <= j < keys@.subrange(0, i as int).len() && keys@.subrange(
                            0,
                            i as int,
                        )[j] == before[k];
                    assert(keys@.to_set().contains(keys@[j]));
                }
            }
            let at: usize = self.place(&order, key);
            proof {
                assert(!before.contains(key)) by {
                    if before.contains(key) {
                        assert(before.to_set().contains(key));
                        assert(keys@.subrange(0, i as int).to_set().contains(key));
                        let k = choose|k: int|
                            0 <= k < keys@.subrange(0, i as int).len() && keys@.subrange(
                                0,
                                i as int,
                            )[k] == key;
                        assert(keys@[k] == keys@[i as int]);
                    }
                }
            }
            order.insert(at, key);
            proof {
                assert(order@ == before.insert(at as int, key));
                lemma_inserted(before, at as int, key);
                let prefix = keys@.subrange(0, i as int);
                assert(keys@.subrange(0, i + 1) =~= prefix.push(key));
                assert(prefix.push(key).to_set() =~= prefix.to_set().insert(key)) by {
                    broadcast use vstd::seq_lib::group_seq_properties;

                }
                assert forall|a: int, b: int| 0 <= a < b < order@.len() implies text_le(
                    address_of(self@.registers[#[trigger] order@[a]]),
                    address_of(self@.registers[#[trigger] order@[b]]),
                ) by {
                    if a == at {
                        assert(order@[b] == before[b - 1]);
                    } else if b == at {
                        assert(order@[a] == before[a]);
                    } else {
                        assert(order@[a] == before[if a < at { a } else { a - 1 }]);
                        assert(order@[b] == before[if b < at { b } else { b - 1 }]);
                    }
                }
            }
            i += 1;
        }
        assert(keys@.subrange(0, i as int) =~= keys@);
        order
    }

    /// Where a point belongs in a sorted list: behind all whose address is not
    /// greater.
    fn place(&self, order: &Vec<u32>, key: u32) -> (at: usize)
        requires
            sorted_by_address(self@.registers, order@),
            self@.registers.contains_key(key),
            forall|k: int|
                0 <= k < order@.len() ==> self@.registers.contains_key(#[trigger] order@[k]),
        ensures
            at <= order@.len(),
            forall|k: int|
                0 <= k < at ==> text_le(
                    address_of(self@.registers[#[trigger] order@[k]]),
                    address_of(self@.registers[key]),
                ),
            forall|k: int|
                at <= k < order@.len() ==> text_le(
                    address_of(self@.registers[key]),
                    address_of(self@.registers[#[trigger] order@[k]]),
                ),
    {
        let mine: String = self.address_of_point(key);
        let mut at: usize = order.len();
        while at > 0
            invariant
                at <= order@.len(),
                mine@ == address_of(self@.registers[key]),
                sorted_by_address(self@.registers, order@),
                forall|k: int|
                    0 <= k < order@.len() ==> self@.registers.contains_key(#[trigger] order@[k]),
                forall|k: int|
                    at <= k < order@.len() ==> text_le(
                        address_of(self@.registers[key]),
                        address_of(self@.registers[#[trigger] order@[k]]),
                    ),
            decreases at,
        {
            let other: String = self.address_of_point(order[at - 1]);
            if in_order(&other, &mine) {
                assert forall|k: int| 0 <= k < at implies text_le(
                    address_of(self@.registers[#[trigger] order@[k]]),
                    address_of(self@.registers[key]),
                ) by {
                    if k < at - 1 {
                        text_order_is_transitive(
                            address_of(self@.registers[order@[k]]),
                            address_of(self@.registers[order@[at - 1]]),
                            address_of(self@.registers[key]),
                        );
                    }
                }
                return at;
            }
            proof {
                text_order_is_total(other@, mine@);
            }
            at = at - 1;
        }
        at
    }

    /// The address of a point's register.
    fn address_of_point(&self, point_id: u32) -> (res: String)
        requires
            self@.registers.contains_key(point_id),
        ensures
            res@ == address_of(self@.registers[point_id]),
    {
        match self.get_register(point_id) {
            Some(reg) => address_text(reg),
            None => text(""),
        }
    }
}

/// What inserting an element does to a list without duplicates.
proof fn lemma_inserted(s: Seq<u32>, at: int, x: u32)
    requires
        0 <= at <= s.len(),
        s.no_duplicates(),
        !s.contains(x),
    ensures
        s.insert(at, x).no_duplicates(),
        s.insert(at, x).to_set() == s.to_set().insert(x),
{
    let t = s.insert(at, x);
    assert forall|y: u32| t.to_set().contains(y) == s.to_set().insert(x).contains(y) by {
        if t.contains(y) {
            let k = choose|k: int| 0 <= k < t.len() && t[k] == y;
            if k < at {
                assert(s[k] == y);
            } else if k > at {
                assert(s[k - 1] == y);
            }
        }
        if s.contains(y) {
            let k = choose|k: int| 0 <= k < s.len() && s[k] == y;
            if k < at {
                assert(t[k] == y);
            } else {
                assert(t[k + 1] == y);
            }
        }
        assert(t[at] == x);
    }
    assert(t.to_set() =~= s.to_set().insert(x));
}

impl ModbusDriver {
    /// Describe the mapped registers, sorted by address.
    pub fn learn(&self) -> (out: Vec<LearntRegister>)
        ensures
            exists|order: Seq<u32>|
                order.no_duplicates() && order.to_set() == self@.registers.dom()
                    && sorted_by_address(self@.registers, order) && out@.len() == order.len()
                    && forall|i: int|
                    0 <= i < order.len() ==> learnt_from(
                        out@[i],
                        #[trigger] order[i],
                        self@.registers[order[i]],
                    ),
            forall|i: int|
                0 <= i < out@.len() ==> distinct_keys((#[trigger] out@[i]).point@.tags),
    {
        let order: Vec<u32> = self.sorted_points();
        let mut out: Vec<LearntRegister> = Vec::new();
        let mut i: usize = 0;
        while i < order.len()
            invariant
                i <= order@.len(),
                order@.to_set() == self@.registers.dom(),
                out@.len() == i,
                forall|k: int|
                    0 <= k < i ==> learnt_from(
                        out@[k],
                        #[trigger] order@[k],
                        self@.registers[order@[k]],
                    ),
                forall|k: int|
                    0 <= k < i ==> distinct_keys((#[trigger] out@[k]).point@.tags),
            decreases order@.len() - i,
        {
            assert(order@.to_set().contains(order@[i as int]));
            if let Some(reg) = self.get_register(order[i]) {
                out.push(learn_register(order[i], reg));
            }
            i += 1;
        }
        assert(order@.no_duplicates() && sorted_by_address(self@.registers, order@));
        out
    }
}

/// Two requests numbered one after the other have different transaction IDs.
pub proof fn transaction_ids_advance(id: u16)
    ensures
        transaction_after(id) != id,
{
}

/// Only coils and holding registers are ever written.
pub proof fn write_refused_iff_read_only(
    d: ModbusDriverView,
    reg: ModbusRegister,
    nonzero: bool,
    raw: u16,
)
    ensures
        write_request(d, reg, nonzero, raw) is Ok <==> writable(reg.register_type),
{
}

} // verus!
