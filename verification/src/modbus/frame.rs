//! Modbus TCP frames: encoding, decoding, requests and responses.

use vstd::prelude::*;
use vstd::string::*;

use super::fc;
use crate::bacnet::wire::{
    be_bytes, be_round_trip, be_value, copy_range, lemma_be_bytes_low, lemma_be_bytes_unfold,
    lemma_be_value_unfold, push_all, push_be16, read_be16,
};
use crate::driver::{DriverError, FaultKind};
use crate::text::{decimal, hex2, push_decimal, push_hex2, text, text_decimal_tail};

verus! {

/// Modbus TCP MBAP frame.
///
/// Wire format:
/// ```text
/// Transaction ID (2B) | Protocol ID (2B, always 0) | Length (2B) | Unit ID (1B) | FC (1B) | Data
/// ```
#[derive(Debug, PartialEq, Eq)]
pub struct ModbusFrame {
    pub transaction_id: u16,
    pub unit_id: u8,
    pub function_code: u8,
    pub data: Vec<u8>,
}

/// What a [`ModbusFrame`] says.
#[verifier::ext_equal]
pub struct ModbusFrameView {
    pub transaction_id: u16,
    pub unit_id: u8,
    pub function_code: u8,
    pub data: Seq<u8>,
}

impl View for ModbusFrame {
    type V = ModbusFrameView;

    open spec fn view(&self) -> ModbusFrameView {
        ModbusFrameView {
            transaction_id: self.transaction_id,
            unit_id: self.unit_id,
            function_code: self.function_code,
            data: self.data@,
        }
    }
}

impl Clone for ModbusFrame {
    fn clone(&self) -> (res: Self)
        ensures
            res@ == self@,
    {
        ModbusFrame {
            transaction_id: self.transaction_id,
            unit_id: self.unit_id,
            function_code: self.function_code,
            data: self.data.clone(),
        }
    }
}

// ── Wire format ─────────────────────────────────────────────

/// The bytes of a frame. The length field counts the unit ID, the function
/// code and the data (its low 16 bits).
pub open spec fn frame_bytes(f: ModbusFrameView) -> Seq<u8> {
    be_bytes(f.transaction_id as nat, 2) + seq![0u8, 0u8] + be_bytes(2 + f.data.len(), 2) + seq![
        f.unit_id,
        f.function_code,
    ] + f.data
}

/// What a frame of bytes says, or why it is refused.
pub open spec fn parse_frame(s: Seq<u8>) -> Result<ModbusFrameView, (FaultKind, Seq<char>)> {
    if s.len() < 9 {
        Err(
            (
                FaultKind::CommFault,
                "modbus frame too short: "@ + decimal(s.len()) + " bytes (need at least 9)"@,
            ),
        )
    } else if be_value(s.subrange(2, 4)) != 0 {
        Err(
            (
                FaultKind::CommFault,
                "invalid modbus protocol ID: "@ + decimal(be_value(s.subrange(2, 4)))
                    + " (expected 0)"@,
            ),
        )
    } else if s.len() < 6 + be_value(s.subrange(4, 6)) {
        Err(
            (
                FaultKind::CommFault,
                "modbus frame truncated: have "@ + decimal((s.len() - 6) as nat)
                    + " bytes after header, need "@ + decimal(be_value(s.subrange(4, 6))),
            ),
        )
    } else if s.len() > 6 + be_value(s.subrange(4, 6)) {
        Err(
            (
                FaultKind::CommFault,
                "modbus frame length mismatch: have "@ + decimal((s.len() - 6) as nat)
                    + " bytes after header, length field states "@ + decimal(
                    be_value(s.subrange(4, 6)),
                ),
            ),
        )
    } else if s[7] >= 0x80 {
        Err(
            (
                FaultKind::RemoteStatus,
                "modbus exception: FC 0x"@ + hex2((s[7] - 0x80) as u8) + ", code "@ + decimal(
                    s[8] as nat,
                ),
            ),
        )
    } else {
        Ok(
            ModbusFrameView {
                transaction_id: be_value(s.subrange(0, 2)) as u16,
                unit_id: s[6],
                function_code: s[7],
                data: s.subrange(8, s.len() as int),
            },
        )
    }
}

/// What a decoding result says.
pub open spec fn frame_result_view(r: Result<ModbusFrame, DriverError>) -> Result<
    ModbusFrameView,
    (FaultKind, Seq<char>),
> {
    match r {
        Ok(f) => Ok(f@),
        Err(e) => Err(e@),
    }
}

// ── Responses ───────────────────────────────────────────────

/// The registers among the first `n` that a response has bytes for. Register
/// `j` stands in the bytes `1 + 2 * j` and `2 + 2 * j`.
pub open spec fn registers_in(data: Seq<u8>, n: nat) -> Seq<u16>
    decreases n,
{
    if n == 0 {
        Seq::empty()
    } else {
        let j = n - 1;
        let earlier = registers_in(data, j as nat);
        if 2 + 2 * j < data.len() {
            earlier.push((data[1 + 2 * j] * 256 + data[2 + 2 * j]) as u16)
        } else {
            earlier
        }
    }
}

/// The values in a register response: a byte count, then two bytes per register.
pub open spec fn register_values(data: Seq<u8>) -> Result<Seq<u16>, (FaultKind, Seq<char>)> {
    if data.len() == 0 {
        Err((FaultKind::CommFault, "empty register response"@))
    } else if data.len() < 1 + data[0] {
        Err(
            (
                FaultKind::CommFault,
                "register response truncated: expected "@ + decimal(data[0] as nat)
                    + " data bytes, got "@ + decimal((data.len() - 1) as nat),
            ),
        )
    } else {
        Ok(registers_in(data, ((data[0] + 1) / 2) as nat))
    }
}

/// Bit `pos` of a byte, counted from the lowest.
pub open spec fn bit_of(b: u8, pos: int) -> bool {
    b as int / vstd::arithmetic::power2::pow2(pos as nat) as int % 2 == 1
}

/// The coils among the first `n` that a response has bytes for: eight per byte,
/// the first in the lowest bit.
pub open spec fn coils_in(data: Seq<u8>, n: nat) -> Seq<bool>
    decreases n,
{
    if n == 0 {
        Seq::empty()
    } else {
        let j = n - 1;
        let earlier = coils_in(data, j as nat);
        if 1 + j / 8 < data.len() {
            earlier.push(bit_of(data[1 + j / 8], j % 8))
        } else {
            earlier
        }
    }
}

/// The first `count` values in a coil response: a byte count, then the bits.
pub open spec fn coil_values(data: Seq<u8>, count: u16) -> Result<
    Seq<bool>,
    (FaultKind, Seq<char>),
> {
    if data.len() == 0 {
        Err((FaultKind::CommFault, "empty coil response"@))
    } else if data.len() < 1 + data[0] {
        Err((FaultKind::CommFault, "coil response truncated"@))
    } else {
        Ok(coils_in(data, count as nat))
    }
}

/// What a list of decoded values says.
pub open spec fn list_result_view<T>(r: Result<Vec<T>, DriverError>) -> Result<
    Seq<T>,
    (FaultKind, Seq<char>),
> {
    match r {
        Ok(v) => Ok(v@),
        Err(e) => Err(e@),
    }
}

/// Read bit `pos` of a byte.
fn bit(b: u8, pos: u8) -> (res: bool)
    requires
        pos < 8,
    ensures
        res == bit_of(b, pos as int),
{
    proof {
        vstd::arithmetic::power2::lemma2_to64();
    }
    let divisor: u8 = match pos {
        0 => 1,
        1 => 2,
        2 => 4,
        3 => 8,
        4 => 16,
        5 => 32,
        6 => 64,
        _ => 128,
    };
    b / divisor % 2 == 1
}

/// Two numbers of 16 bits, one after the other.
pub open spec fn two_words(a: u16, b: u16) -> Seq<u8> {
    be_bytes(a as nat, 2) + be_bytes(b as nat, 2)
}

/// Build two numbers of 16 bits, one after the other.
fn words(a: u16, b: u16) -> (data: Vec<u8>)
    ensures
        data@ == two_words(a, b),
{
    let mut data: Vec<u8> = Vec::new();
    push_be16(&mut data, a);
    push_be16(&mut data, b);
    assert(data@ =~= two_words(a, b));
    data
}

/// The bytes of several registers, one after the other.
pub open spec fn words_bytes(values: Seq<u16>) -> Seq<u8>
    decreases values.len(),
{
    if values.len() == 0 {
        Seq::empty()
    } else {
        words_bytes(values.drop_last()) + be_bytes(values.last() as nat, 2)
    }
}

impl ModbusFrame {
    /// Encode the frame into Modbus TCP wire format (MBAP header + PDU).
    pub fn encode(&self) -> (frame: Vec<u8>)
        ensures
            frame@ == frame_bytes(self@),
    {
        let length: u16 = ((self.data.len() % 65536 + 2) % 65536) as u16;
        let mut frame: Vec<u8> = Vec::new();
        push_be16(&mut frame, self.transaction_id);
        frame.push(0);
        frame.push(0);
        proof {
            lemma_be_bytes_low(2 + self.data@.len(), length as nat);
        }
        push_be16(&mut frame, length);
        frame.push(self.unit_id);
        frame.push(self.function_code);
        push_all(&mut frame, self.data.as_slice());
        assert(frame@ =~= frame_bytes(self@));
        frame
    }

    /// Decode a Modbus TCP frame from raw bytes.
    ///
    /// Requires at least 9 bytes (7-byte MBAP header + 1 FC + 1 of data).
    /// Validates that the protocol ID is 0 and that the length field matches the
    /// data. An exception response (function code with the high bit set) is an
    /// error that the remote side reported.
    pub fn decode(bytes: &[u8]) -> (res: Result<ModbusFrame, DriverError>)
        ensures
            frame_result_view(res) == parse_frame(bytes@),
    {
        if bytes.len() < 9 {
            return Err(
                DriverError::CommFault(
                    text_decimal_tail(
                        "modbus frame too short: ",
                        bytes.len() as u128,
                        " bytes (need at least 9)",
                    ),
                ),
            );
        }
        let protocol_id: u16 = read_be16(bytes, 2);
        if protocol_id != 0 {
            return Err(
                DriverError::CommFault(
                    text_decimal_tail(
                        "invalid modbus protocol ID: ",
                        protocol_id as u128,
                        " (expected 0)",
                    ),
                ),
            );
        }
        let length: usize = read_be16(bytes, 4) as usize;
        if bytes.len() < 6 + length {
            let mut msg: String = text_decimal_tail(
                "modbus frame truncated: have ",
                (bytes.len() - 6) as u128,
                " bytes after header, need ",
            );
            push_decimal(&mut msg, length as u128);
            return Err(DriverError::CommFault(msg));
        }
        if bytes.len() > 6 + length {
            let mut msg: String = text_decimal_tail(
                "modbus frame length mismatch: have ",
                (bytes.len() - 6) as u128,
                " bytes after header, length field states ",
            );
            push_decimal(&mut msg, length as u128);
            return Err(DriverError::CommFault(msg));
        }
        let function_code: u8 = bytes[7];
        if function_code >= 0x80 {
            let mut msg: String = text("modbus exception: FC 0x");
            push_hex2(&mut msg, function_code - 0x80);
            msg.append(", code ");
            push_decimal(&mut msg, bytes[8] as u128);
            return Err(DriverError::RemoteStatus(msg));
        }
        Ok(
            ModbusFrame {
                transaction_id: read_be16(bytes, 0),
                unit_id: bytes[6],
                function_code,
                data: copy_range(bytes, 8, bytes.len()),
            },
        )
    }

    /// Build a Read Coils request (FC 01).
    pub fn read_coils(txn: u16, unit: u8, start: u16, count: u16) -> (res: ModbusFrame)
        ensures
            res@ == (ModbusFrameView {
                transaction_id: txn,
                unit_id: unit,
                function_code: fc::READ_COILS,
                data: two_words(start, count),
            }),
    {
        ModbusFrame {
            transaction_id: txn,
            unit_id: unit,
            function_code: fc::READ_COILS,
            data: words(start, count),
        }
    }

    /// Build a Read Discrete Inputs request (FC 02).
    pub fn read_discrete_inputs(txn: u16, unit: u8, start: u16, count: u16) -> (res: ModbusFrame)
        ensures
            res@ == (ModbusFrameView {
                transaction_id: txn,
                unit_id: unit,
                function_code: fc::READ_DISCRETE_INPUTS,
                data: two_words(start, count),
            }),
    {
        ModbusFrame {
            transaction_id: txn,
            unit_id: unit,
            function_code: fc::READ_DISCRETE_INPUTS,
            data: words(start, count),
        }
    }

    /// Build a Read Holding Registers request (FC 03).
    pub fn read_holding_registers(txn: u16, unit: u8, start: u16, count: u16) -> (res: ModbusFrame)
        ensures
            res@ == (ModbusFrameView {
                transaction_id: txn,
                unit_id: unit,
                function_code: fc::READ_HOLDING_REGISTERS,
                data: two_words(start, count),
            }),
    {
        ModbusFrame {
            transaction_id: txn,
            unit_id: unit,
            function_code: fc::READ_HOLDING_REGISTERS,
            data: words(start, count),
        }
    }

    /// Build a Read Input Registers request (FC 04).
    pub fn read_input_registers(txn: u16, unit: u8, start: u16, count: u16) -> (res: ModbusFrame)
        ensures
            res@ == (ModbusFrameView {
                transaction_id: txn,
                unit_id: unit,
                function_code: fc::READ_INPUT_REGISTERS,
                data: two_words(start, count),
            }),
    {
        ModbusFrame {
            transaction_id: txn,
            unit_id: unit,
            function_code: fc::READ_INPUT_REGISTERS,
            data: words(start, count),
        }
    }

    /// Build a Write Single Coil request (FC 05).
    ///
    /// Value: `true` = 0xFF00, `false` = 0x0000.
    pub fn write_single_coil(txn: u16, unit: u8, address: u16, value: bool) -> (res: ModbusFrame)
        ensures
            res@ == (ModbusFrameView {
                transaction_id: txn,
                unit_id: unit,
                function_code: fc::WRITE_SINGLE_COIL,
                data: two_words(
                    address,
                    if value {
                        0xFF00
                    } else {
                        0
                    },
                ),
            }),
    {
        let coil: u16 = if value {
            0xFF00
        } else {
            0x0000
        };
        ModbusFrame {
            transaction_id: txn,
            unit_id: unit,
            function_code: fc::WRITE_SINGLE_COIL,
            data: words(address, coil),
        }
    }

    /// Build a Write Single Register request (FC 06).
    pub fn write_single_register(txn: u16, unit: u8, address: u16, value: u16) -> (res: ModbusFrame)
        ensures
            res@ == (ModbusFrameView {
                transaction_id: txn,
                unit_id: unit,
                function_code: fc::WRITE_SINGLE_REGISTER,
                data: two_words(address, value),
            }),
    {
        ModbusFrame {
            transaction_id: txn,
            unit_id: unit,
            function_code: fc::WRITE_SINGLE_REGISTER,
            data: words(address, value),
        }
    }

    /// Build a Write Multiple Registers request (FC 16).
    ///
    /// The number of registers is sent in 16 bits and their number of bytes in
    /// 8, whatever does not fit is cut off.
    pub fn write_multiple_registers(txn: u16, unit: u8, start: u16, values: &[u16]) -> (res:
        ModbusFrame)
        ensures
            res@ == (ModbusFrameView {
                transaction_id: txn,
                unit_id: unit,
                function_code: fc::WRITE_MULTIPLE_REGISTERS,
                data: two_words(start, (values@.len() % 65536) as u16) + seq![
                    (values@.len() * 2 % 256) as u8,
                ] + words_bytes(values@),
            }),
    {
        let count: u16 = (values.len() % 65536) as u16;
        let byte_count: u8 = (values.len() % 128) as u8 * 2;
        let mut data: Vec<u8> = words(start, count);
        data.push(byte_count);
        let ghost header = data@;
        let mut i: usize = 0;
        assert(values@.subrange(0, 0) =~= Seq::empty());
        while i < values.len()
            invariant
                i <= values@.len(),
                data@ == header + words_bytes(values@.subrange(0, i as int)),
            decreases values@.len() - i,
        {
            push_be16(&mut data, values[i]);
            i += 1;
            assert(values@.subrange(0, i as int).drop_last() =~= values@.subrange(0, i - 1));
            assert(data@ =~= header + words_bytes(values@.subrange(0, i as int)));
        }
        assert(values@.subrange(0, i as int) =~= values@);
        assert(byte_count == values@.len() * 2 % 256);
        ModbusFrame {
            transaction_id: txn,
            unit_id: unit,
            function_code: fc::WRITE_MULTIPLE_REGISTERS,
            data,
        }
    }

    /// Parse register values from a read response (FC 03/04).
    ///
    /// Response data format: `byte_count(1) + register_values(N*2)`.
    pub fn parse_register_response(&self) -> (res: Result<Vec<u16>, DriverError>)
        ensures
            list_result_view(res) == register_values(self@.data),
    {
        if self.data.len() == 0 {
            return Err(DriverError::CommFault(text("empty register response")));
        }
        let byte_count: usize = self.data[0] as usize;
        if self.data.len() < 1 + byte_count {
            let mut msg: String = text_decimal_tail(
                "register response truncated: expected ",
                byte_count as u128,
                " data bytes, got ",
            );
            push_decimal(&mut msg, (self.data.len() - 1) as u128);
            return Err(DriverError::CommFault(msg));
        }
        let mut registers: Vec<u16> = Vec::new();
        let n: usize = (byte_count + 1) / 2;
        let mut j: usize = 0;
        while j < n
            invariant
                j <= n <= 128,
                registers@ == registers_in(self.data@, j as nat),
            decreases n - j,
        {
            let i: usize = 1 + 2 * j;
            if i + 1 < self.data.len() {
                registers.push(self.data[i] as u16 * 256 + self.data[i + 1] as u16);
            }
            j += 1;
        }
        Ok(registers)
    }

    /// Parse coil/discrete input values from a read response (FC 01/02).
    ///
    /// Response data format: `byte_count(1) + coil_bytes(N)`.
    /// Returns individual bit values as booleans.
    pub fn parse_coil_response(&self, count: u16) -> (res: Result<Vec<bool>, DriverError>)
        ensures
            list_result_view(res) == coil_values(self@.data, count),
    {
        if self.data.len() == 0 {
            return Err(DriverError::CommFault(text("empty coil response")));
        }
        let byte_count: usize = self.data[0] as usize;
        if self.data.len() < 1 + byte_count {
            return Err(DriverError::CommFault(text("coil response truncated")));
        }
        let mut coils: Vec<bool> = Vec::new();
        let mut j: usize = 0;
        while j < count as usize
            invariant
                j <= count,
                coils@ == coils_in(self.data@, j as nat),
            decreases count - j,
        {
            let at: usize = 1 + j / 8;
            if at < self.data.len() {
                coils.push(bit(self.data[at], (j % 8) as u8));
            }
            j += 1;
        }
        Ok(coils)
    }
}

// ── Laws ────────────────────────────────────────────────────

/// A frame with at least one byte of data, whose length fits the length field
/// and whose function code is not that of an exception, decodes to itself.
pub proof fn frame_round_trip(f: ModbusFrameView)
    requires
        1 <= f.data.len(),
        2 + f.data.len() <= 0xFFFF,
        f.function_code < 0x80,
    ensures
        parse_frame(frame_bytes(f)) == Ok::<ModbusFrameView, (FaultKind, Seq<char>)>(f),
{
    let s = frame_bytes(f);
    let n = 2 + f.data.len();
    reveal_with_fuel(vstd::arithmetic::power::pow, 3);
    be_round_trip(f.transaction_id as nat, 2);
    be_round_trip(n, 2);
    assert(s.subrange(0, 2) =~= be_bytes(f.transaction_id as nat, 2));
    assert(s.subrange(2, 4) =~= seq![0u8, 0u8]);
    lemma_be_value_unfold(s.subrange(2, 4));
    assert(s.subrange(4, 6) =~= be_bytes(n, 2));
    assert(s.subrange(8, s.len() as int) =~= f.data);
}

/// Every read request that is built names one block: start address and count
/// stand in its four bytes of data, and it decodes to itself.
pub proof fn request_round_trip(txn: u16, unit: u8, code: u8, a: u16, b: u16)
    requires
        code < 0x80,
    ensures
        ({
            let f = ModbusFrameView {
                transaction_id: txn,
                unit_id: unit,
                function_code: code,
                data: two_words(a, b),
            };
            &&& parse_frame(frame_bytes(f)) == Ok::<ModbusFrameView, (FaultKind, Seq<char>)>(f)
            &&& be_value(f.data.subrange(0, 2)) == a
            &&& be_value(f.data.subrange(2, 4)) == b
        }),
{
    reveal_with_fuel(vstd::arithmetic::power::pow, 3);
    be_round_trip(a as nat, 2);
    be_round_trip(b as nat, 2);
    let f = ModbusFrameView {
        transaction_id: txn,
        unit_id: unit,
        function_code: code,
        data: two_words(a, b),
    };
    assert(f.data.subrange(0, 2) =~= be_bytes(a as nat, 2));
    assert(f.data.subrange(2, 4) =~= be_bytes(b as nat, 2));
    frame_round_trip(f);
}

/// The registers of a response are read back from the bytes that they were
/// written as.
pub proof fn register_values_round_trip(values: Seq<u16>)
    requires
        values.len() * 2 <= 0xFF,
    ensures
        register_values(seq![(values.len() * 2) as u8] + words_bytes(values)) == Ok::<
            Seq<u16>,
            (FaultKind, Seq<char>),
        >(values),
{
    let data = seq![(values.len() * 2) as u8] + words_bytes(values);
    lemma_words_bytes(values, values.len());
    lemma_registers_in(data, values, values.len());
    assert(values.subrange(0, values.len() as int) =~= values);
}

/// Where a register stands in the bytes of several.
proof fn lemma_words_bytes(values: Seq<u16>, n: nat)
    requires
        n <= values.len(),
    ensures
        words_bytes(values).len() == 2 * values.len(),
        forall|j: int|
            0 <= j < n ==> words_bytes(values)[2 * j] * 256 + words_bytes(values)[2 * j + 1]
                == #[trigger] values[j],
    decreases values.len(),
{
    if values.len() > 0 {
        let init = values.drop_last();
        lemma_words_bytes(init, init.len());
        lemma_be_bytes_unfold(values.last() as nat);
        assert forall|j: int| 0 <= j < n implies words_bytes(values)[2 * j] * 256 + words_bytes(
            values,
        )[2 * j + 1] == #[trigger] values[j] by {
            if j < init.len() {
                assert(init[j] == values[j]);
            }
        }
    }
}

/// The first `n` registers of a response.
proof fn lemma_registers_in(data: Seq<u8>, values: Seq<u16>, n: nat)
    requires
        n <= values.len(),
        data == seq![(values.len() * 2) as u8] + words_bytes(values),
        words_bytes(values).len() == 2 * values.len(),
        forall|j: int|
            0 <= j < values.len() ==> words_bytes(values)[2 * j] * 256 + words_bytes(values)[2 * j
                + 1] == #[trigger] values[j],
    ensures
        registers_in(data, n) == values.subrange(0, n as int),
    decreases n,
{
    if n > 0 {
        lemma_registers_in(data, values, (n - 1) as nat);
        let j = n - 1;
        assert(words_bytes(values)[2 * j] * 256 + words_bytes(values)[2 * j + 1] == values[j]);
        assert(data[1 + 2 * j] == words_bytes(values)[2 * j]);
        assert(data[2 + 2 * j] == words_bytes(values)[2 * j + 1]);
        assert(registers_in(data, n) =~= values.subrange(0, n as int));
    } else {
        assert(registers_in(data, n) =~= values.subrange(0, n as int));
    }
}

} // verus!
