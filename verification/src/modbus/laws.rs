//! What goes over the wire for a register, and what comes back.

use vstd::prelude::*;

use super::driver::{
    address_of, learnt_from, numbered, read_request, reading_in, target_of, transaction_after,
    write_request, LearntRegister, ModbusDriverView, ModbusReading,
};
use super::frame::{
    bit_of, coil_values, coils_in, frame_bytes, parse_frame, register_values, registers_in,
    two_words, words_bytes, ModbusFrameView,
};
use super::register::{label_of, read_code, single_bit, writable, ModbusRegister, RegisterType};
use crate::bacnet::wire::{be_bytes, lemma_be_bytes_unfold, lemma_be_value_unfold};
use crate::driver::FaultKind;
use crate::text::{decimal, hex2};

verus! {

/// The number that two bytes spell, most significant byte first.
pub open spec fn word(s: Seq<u8>, at: int) -> int {
    s[at] * 256 + s[at + 1]
}

/// Two numbers stand one after the other, most significant bytes first.
pub proof fn two_words_stand_in_order(a: u16, b: u16)
    ensures
        two_words(a, b).len() == 4,
        word(two_words(a, b), 0) == a,
        word(two_words(a, b), 2) == b,
{
    lemma_be_bytes_unfold(a as nat);
    lemma_be_bytes_unfold(b as nat);
}

// ── Requests ────────────────────────────────────────────────

/// The request that reads a register names its address and asks for one, from
/// the unit of the driver, with the function code of the register's type.
pub proof fn read_request_asks_for_one_register(d: ModbusDriverView, reg: ModbusRegister)
    ensures
        ({
            let f = read_request(d, reg);
            &&& f.data.len() == 4
            &&& word(f.data, 0) == reg.address
            &&& word(f.data, 2) == 1
            &&& f.unit_id == d.slave_id
            &&& f.transaction_id == d.next_transaction
            &&& f.function_code == match reg.register_type {
                RegisterType::Coil => 1u8,
                RegisterType::DiscreteInput => 2u8,
                RegisterType::HoldingRegister => 3u8,
                RegisterType::InputRegister => 4u8,
            }
        }),
{
    two_words_stand_in_order(reg.address, 1);
}

/// The request that writes a register names the address that a read of it
/// names, and carries the raw number, or 0xFF00 and 0 for a coil that is on and
/// off. Input registers and discrete inputs are refused.
pub proof fn write_request_names_the_address_that_is_read(
    d: ModbusDriverView,
    reg: ModbusRegister,
    nonzero: bool,
    raw: u16,
)
    ensures
        match write_request(d, reg, nonzero, raw) {
            Ok(f) => {
                &&& f.data.len() == 4
                &&& word(f.data, 0) == reg.address
                &&& word(f.data, 0) == word(read_request(d, reg).data, 0)
                &&& f.unit_id == d.slave_id
                &&& f.transaction_id == d.next_transaction
                &&& match reg.register_type {
                    RegisterType::Coil => f.function_code == 5 && word(f.data, 2) == if nonzero {
                        0xFF00int
                    } else {
                        0int
                    },
                    RegisterType::HoldingRegister => f.function_code == 6 && word(f.data, 2) == raw,
                    _ => false,
                }
            },
            Err(e) => e.0 == FaultKind::ConfigFault && (reg.register_type is InputRegister
                || reg.register_type is DiscreteInput) && e.1 == "register type "@ + label_of(
                reg.register_type,
            ) + " at address "@ + decimal(reg.address as nat) + " is read-only"@,
        },
{
    read_request_asks_for_one_register(d, reg);
    two_words_stand_in_order(reg.address, raw);
    two_words_stand_in_order(reg.address, 0xFF00);
    two_words_stand_in_order(reg.address, 0);
}

/// A request takes up the next transaction ID and changes nothing else of the
/// driver; IDs count up by one and around to 0.
pub proof fn request_takes_up_one_transaction(d: ModbusDriverView)
    ensures
        numbered(d).next_transaction == (d.next_transaction + 1) % 65536,
        numbered(d).registers == d.registers,
        numbered(d).slave_id == d.slave_id,
        numbered(d).connected == d.connected,
        numbered(d).status == d.status,
        numbered(d).host == d.host,
        numbered(d).port == d.port,
        numbered(d).id == d.id,
{
}

// ── Responses ───────────────────────────────────────────────

/// A response with one register is read as that number, with the scale and the
/// offset of the register that was asked for.
pub proof fn register_response_is_its_number(reg: ModbusRegister, raw: u16)
    requires
        reg.register_type is HoldingRegister || reg.register_type is InputRegister,
    ensures
        reading_in(reg, seq![2u8] + be_bytes(raw as nat, 2)) == Ok::<
            ModbusReading,
            (FaultKind, Seq<char>),
        >(ModbusReading::Raw { raw, scale: reg.scale, offset: reg.offset }),
{
    lemma_be_bytes_unfold(raw as nat);
    let data = seq![2u8] + be_bytes(raw as nat, 2);
    reveal_with_fuel(registers_in, 2);
    assert(data.len() == 3);
    assert(data[1] * 256 + data[2] == raw);
    assert(registers_in(data, 1) =~= seq![raw]);
}

/// What was written to a holding register is read back: the request carries the
/// number that a response with the same two bytes is read as.
pub proof fn written_register_reads_back(d: ModbusDriverView, reg: ModbusRegister, raw: u16)
    requires
        reg.register_type is HoldingRegister,
    ensures
        write_request(d, reg, raw != 0, raw) matches Ok(f) && reading_in(
            reg,
            seq![2u8] + f.data.subrange(2, 4),
        ) == Ok::<ModbusReading, (FaultKind, Seq<char>)>(
            ModbusReading::Raw { raw, scale: reg.scale, offset: reg.offset },
        ),
{
    lemma_be_bytes_unfold(reg.address as nat);
    lemma_be_bytes_unfold(raw as nat);
    assert(two_words(reg.address, raw).subrange(2, 4) =~= be_bytes(raw as nat, 2));
    register_response_is_its_number(reg, raw);
}

/// The lowest bit of a byte tells whether it is odd.
proof fn lemma_lowest_bit(bits: u8)
    ensures
        bit_of(bits, 0) == (bits % 2 == 1),
{
    vstd::arithmetic::power2::lemma2_to64();
    let unit = vstd::arithmetic::power2::pow2(0) as int;
    let b = bits as int;
    assert(b / unit == b) by (nonlinear_arith)
        requires
            unit == 1,
    ;
}

/// A response with one coil or input is on exactly if the lowest bit of its
/// byte is set.
pub proof fn bit_response_is_its_lowest_bit(reg: ModbusRegister, bits: u8)
    requires
        reg.register_type is Coil || reg.register_type is DiscreteInput,
    ensures
        reading_in(reg, seq![1u8, bits]) == Ok::<ModbusReading, (FaultKind, Seq<char>)>(
            ModbusReading::Bit(bits % 2 == 1),
        ),
{
    reveal_with_fuel(coils_in, 2);
    let data = seq![1u8, bits];
    lemma_lowest_bit(bits);
    assert(1 + 0int / 8 == 1 && 0int % 8 == 0);
    assert(coils_in(data, 0) =~= Seq::empty());
    assert(coils_in(data, 1) =~= seq![bit_of(bits, 0)]);
    assert(coil_values(data, 1) == Ok::<Seq<bool>, (FaultKind, Seq<char>)>(coils_in(data, 1)));
}

/// Whatever follows in a response, a register is read as its first two bytes and
/// a coil or input as the lowest bit of its first byte.
pub proof fn reading_is_the_first_of_the_response(reg: ModbusRegister, data: Seq<u8>)
    requires
        data.len() >= 3,
        data[0] >= 2,
        data.len() >= 1 + data[0],
    ensures
        !single_bit(reg.register_type) ==> (reading_in(reg, data) matches Ok(
            ModbusReading::Raw { raw, scale, offset },
        ) && raw == word(data, 1) && scale == reg.scale && offset == reg.offset),
        single_bit(reg.register_type) ==> (reading_in(reg, data) matches Ok(
            ModbusReading::Bit(on),
        ) && on == (data[1] % 2 == 1)),
{
    registers_are_pairs_of_bytes(data, 0);
    reveal_with_fuel(coils_in, 2);
    lemma_lowest_bit(data[1]);
    assert(1 + 0int / 8 == 1 && 0int % 8 == 0);
    assert(coils_in(data, 0) =~= Seq::empty());
    assert(coils_in(data, 1) =~= seq![bit_of(data[1], 0)]);
}

/// A response that is empty or shorter than it says is a communication fault,
/// whatever was asked for.
pub proof fn short_response_is_a_fault(reg: ModbusRegister, data: Seq<u8>)
    ensures
        data.len() == 0 || data.len() < 1 + data[0] <==> reading_in(reg, data) is Err,
        reading_in(reg, data) matches Err(e) ==> e.0 == FaultKind::CommFault,
{
}

/// Register `j` of a response is the number in its two bytes.
pub proof fn registers_are_pairs_of_bytes(data: Seq<u8>, j: int)
    requires
        data.len() > 0,
        data.len() >= 1 + data[0],
        0 <= j,
        2 * j + 2 <= data[0],
    ensures
        register_values(data) matches Ok(regs) && j < regs.len() && regs[j] == word(data, 1 + 2 * j),
{
    lemma_registers_at(data, ((data[0] + 1) / 2) as nat, j);
}

/// Where a register stands among the first `n`.
proof fn lemma_registers_at(data: Seq<u8>, n: nat, j: int)
    requires
        0 <= j < n,
        2 + 2 * j < data.len(),
    ensures
        j < registers_in(data, n).len() <= n,
        registers_in(data, n)[j] == word(data, 1 + 2 * j),
    decreases n,
{
    lemma_registers_len(data, n);
    if j < n - 1 {
        lemma_registers_at(data, (n - 1) as nat, j);
    } else {
        lemma_registers_full(data, j as nat);
    }
}

/// There are no more registers than asked for.
proof fn lemma_registers_len(data: Seq<u8>, n: nat)
    ensures
        registers_in(data, n).len() <= n,
    decreases n,
{
    if n > 0 {
        lemma_registers_len(data, (n - 1) as nat);
    }
}

/// Registers that the response has bytes for are all there.
proof fn lemma_registers_full(data: Seq<u8>, n: nat)
    requires
        n > 0 ==> 2 + 2 * (n - 1) < data.len(),
    ensures
        registers_in(data, n).len() == n,
    decreases n,
{
    if n > 0 {
        lemma_registers_full(data, (n - 1) as nat);
    }
}

/// Coil `j` of a response is bit `j % 8` of its byte `j / 8`, counted from the
/// lowest.
pub proof fn coils_are_bits_of_bytes(data: Seq<u8>, count: u16, j: int)
    requires
        data.len() > 0,
        data.len() >= 1 + data[0],
        0 <= j < count,
        1 + j / 8 < data.len(),
    ensures
        coil_values(data, count) matches Ok(bits) && j < bits.len() && bits[j] == (data[1 + j / 8]
            as int / vstd::arithmetic::power2::pow2((j % 8) as nat) as int % 2 == 1),
{
    lemma_coils_at(data, count as nat, j);
}

/// Where a coil stands among the first `n`.
proof fn lemma_coils_at(data: Seq<u8>, n: nat, j: int)
    requires
        0 <= j < n,
        1 + j / 8 < data.len(),
    ensures
        j < coils_in(data, n).len(),
        coils_in(data, n)[j] == (data[1 + j / 8] as int / vstd::arithmetic::power2::pow2(
            (j % 8) as nat,
        ) as int % 2 == 1),
    decreases n,
{
    if j < n - 1 {
        lemma_coils_at(data, (n - 1) as nat, j);
    } else {
        lemma_coils_full(data, j as nat);
    }
}

/// Coils that the response has bytes for are all there.
proof fn lemma_coils_full(data: Seq<u8>, n: nat)
    requires
        n > 0 ==> 1 + (n - 1) / 8 < data.len(),
    ensures
        coils_in(data, n).len() == n,
    decreases n,
{
    if n > 0 {
        lemma_coils_full(data, (n - 1) as nat);
    }
}

// ── Frames ──────────────────────────────────────────────────

/// Where the fields of a frame stand: the transaction ID, a zero, the number of
/// bytes that follow the length, the unit, the function code, the data.
pub proof fn frame_fields_stand_in_order(f: ModbusFrameView)
    requires
        2 + f.data.len() <= 0xFFFF,
    ensures
        ({
            let s = frame_bytes(f);
            &&& s.len() == 8 + f.data.len()
            &&& word(s, 0) == f.transaction_id
            &&& word(s, 2) == 0
            &&& word(s, 4) == s.len() - 6
            &&& s[6] == f.unit_id
            &&& s[7] == f.function_code
            &&& s.subrange(8, s.len() as int) == f.data
        }),
{
    let s = frame_bytes(f);
    lemma_be_bytes_unfold(f.transaction_id as nat);
    lemma_be_bytes_unfold(2 + f.data.len());
    assert(s.subrange(8, s.len() as int) =~= f.data);
}

/// A frame of bytes is accepted exactly if it has nine bytes or more, a zero as
/// protocol, a length field that counts what follows it, and no exception code;
/// its fields are those bytes.
pub proof fn frame_is_accepted_iff_well_formed(s: Seq<u8>)
    ensures
        parse_frame(s) is Ok <==> s.len() >= 9 && word(s, 2) == 0 && word(s, 4) == s.len() - 6
            && s[7] < 0x80,
        parse_frame(s) matches Ok(f) ==> f.transaction_id == word(s, 0) && f.unit_id == s[6]
            && f.function_code == s[7] && f.data == s.subrange(8, s.len() as int),
        parse_frame(s) matches Err(e) ==> e.0 == FaultKind::CommFault || e.0
            == FaultKind::RemoteStatus,
        (parse_frame(s) matches Err(e) && e.0 == FaultKind::RemoteStatus) <==> s.len() >= 9
            && word(s, 2) == 0 && word(s, 4) == s.len() - 6 && s[7] >= 0x80,
{
    if s.len() >= 9 {
        lemma_be_value_unfold(s.subrange(0, 2));
        lemma_be_value_unfold(s.subrange(2, 4));
        lemma_be_value_unfold(s.subrange(4, 6));
    }
}

/// A frame with an exception tells the function that failed and the code of the
/// exception, in this order.
pub proof fn exception_tells_function_and_code(s: Seq<u8>)
    requires
        s.len() >= 9,
        word(s, 2) == 0,
        word(s, 4) == s.len() - 6,
        s[7] >= 0x80,
    ensures
        parse_frame(s) matches Err(e) && e.0 == FaultKind::RemoteStatus && e.1
            == "modbus exception: FC 0x"@ + hex2((s[7] - 0x80) as u8) + ", code "@ + decimal(
            s[8] as nat,
        ),
{
    lemma_be_value_unfold(s.subrange(2, 4));
    lemma_be_value_unfold(s.subrange(4, 6));
}

/// The registers of a list stand one after the other, two bytes each.
pub proof fn registers_stand_in_order(values: Seq<u16>, j: int)
    requires
        0 <= j < values.len(),
    ensures
        words_bytes(values).len() == 2 * values.len(),
        word(words_bytes(values), 2 * j) == values[j],
    decreases values.len(),
{
    let init = values.drop_last();
    lemma_be_bytes_unfold(values.last() as nat);
    assert(words_bytes(values) == words_bytes(init) + be_bytes(values.last() as nat, 2));
    if init.len() == 0 {
        assert(words_bytes(init) =~= Seq::empty());
    } else {
        registers_stand_in_order(
            init,
            if j < init.len() {
                j
            } else {
                0
            },
        );
    }
    if j < init.len() {
        assert(init[j] == values[j]);
        assert(words_bytes(values)[2 * j] == words_bytes(init)[2 * j]);
        assert(words_bytes(values)[2 * j + 1] == words_bytes(init)[2 * j + 1]);
    }
}

// ── Points ──────────────────────────────────────────────────

/// A point is asked of the register that is mapped to it; without a connection
/// nothing is asked, and a point without a register is a configuration fault
/// that names it.
pub proof fn point_is_asked_of_its_register(d: ModbusDriverView, point_id: u32)
    ensures
        match target_of(d, point_id) {
            Ok(reg) => d.connected && d.registers.contains_key(point_id) && reg
                == d.registers[point_id],
            Err(e) => if d.connected {
                !d.registers.contains_key(point_id) && e == (
                    FaultKind::ConfigFault,
                    "no register mapping for point "@ + decimal(point_id as nat),
                )
            } else {
                e == (FaultKind::CommFault, "not connected"@)
            },
        },
{
}

/// A learnt register names its type and address and the point that it belongs
/// to; it is tagged writable exactly if a write to it is accepted, and bits are
/// learnt as on/off points.
pub proof fn learnt_register_tells_its_point(
    l: LearntRegister,
    d: ModbusDriverView,
    point_id: u32,
    reg: ModbusRegister,
    nonzero: bool,
    raw: u16,
)
    requires
        learnt_from(l, point_id, reg),
    ensures
        l.point@.address == address_of(reg),
        l.point@.address == label_of(reg.register_type) + ":"@ + decimal(reg.address as nat),
        l.point@.tags.contains(("pointId"@, decimal(point_id as nat))),
        l.point@.tags.contains(("writable"@, "true"@)) <==> write_request(
            d,
            reg,
            nonzero,
            raw,
        ) is Ok,
        l.point@.kind == "Bool"@ <==> reg.register_type is Coil || reg.register_type
            is DiscreteInput,
        l.point@.kind == "Number"@ || l.point@.kind == "Bool"@,
        l.scale matches Some(bits) ==> bits == reg.scale,
        l.scale is None <==> reg.scale == 0x3FF0_0000_0000_0000,
        l.offset matches Some(bits) ==> bits == reg.offset,
        l.offset is None <==> reg.offset == 0 || reg.offset == 0x8000_0000_0000_0000,
{
    reveal_strlit("pointId");
    reveal_strlit("writable");
    reveal_strlit("Number");
    reveal_strlit("Bool");
    assert("Number"@.len() != "Bool"@.len());
    assert("pointId"@.len() != "writable"@.len());
    let tags = l.point@.tags;
    assert(tags[0] == ("pointId"@, decimal(point_id as nat)));
    if writable(reg.register_type) {
        assert(tags[1] == ("writable"@, "true"@));
    } else if tags.contains(("writable"@, "true"@)) {
        let k = choose|k: int| 0 <= k < tags.len() && tags[k] == ("writable"@, "true"@);
        assert(k == 0);
    }
}

/// Each register type has its own function code and label, and bits are those
/// types that are read with codes 1 and 2.
pub proof fn register_types_are_told_apart(a: RegisterType, b: RegisterType)
    ensures
        read_code(a) == read_code(b) ==> a == b,
        label_of(a) == label_of(b) ==> a == b,
        single_bit(a) <==> read_code(a) <= 2,
        writable(a) <==> a is Coil || a is HoldingRegister,
{
    reveal_strlit("HR");
    reveal_strlit("IR");
    reveal_strlit("CO");
    reveal_strlit("DI");
    assert("HR"@[0] == 'H' && "IR"@[0] == 'I' && "CO"@[0] == 'C' && "DI"@[0] == 'D');
}

/// The transaction ID after another is the next number, around from the largest
/// to 0.
pub proof fn transaction_ids_count_up(id: u16)
    ensures
        transaction_after(id) == (id + 1) % 65536,
{
}

} // verus!
