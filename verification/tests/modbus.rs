//! Modbus TCP frames, registers and driver state.

use sandstar_drivers::driver::{DriverError, DriverStatus, PollMode};
use sandstar_drivers::modbus::driver::{reading, LostBy, ModbusDriver, ModbusReading};
use sandstar_drivers::modbus::fc;
use sandstar_drivers::modbus::frame::ModbusFrame;
use sandstar_drivers::modbus::register::{ModbusRegister, RegisterType};

fn driver(id: &str, host: &str, port: u16, slave_id: u8) -> ModbusDriver {
    ModbusDriver::new(id.to_string(), host.to_string(), port, slave_id)
}

/// The register content for an engineering value.
fn raw(reg: &ModbusRegister, eng: f64) -> u16 {
    ((eng - f64::from_bits(reg.offset)) / f64::from_bits(reg.scale)).round() as u16
}

#[test]
fn frame_encode_decode_roundtrip() {
    let frame = ModbusFrame {
        transaction_id: 42,
        unit_id: 1,
        function_code: fc::READ_HOLDING_REGISTERS,
        data: vec![0x00, 0x0A, 0x00, 0x02], // start=10, count=2
    };
    let bytes = frame.encode();
    assert_eq!(bytes.len(), 12); // 7 header + 1 fc + 4 data

    // Verify MBAP header
    assert_eq!(u16::from_be_bytes([bytes[0], bytes[1]]), 42); // txn ID
    assert_eq!(u16::from_be_bytes([bytes[2], bytes[3]]), 0);  // protocol ID
    assert_eq!(u16::from_be_bytes([bytes[4], bytes[5]]), 6);  // length = 1+1+4
    assert_eq!(bytes[6], 1);  // unit ID
    assert_eq!(bytes[7], fc::READ_HOLDING_REGISTERS); // FC

    let decoded = ModbusFrame::decode(&bytes).unwrap();
    assert_eq!(decoded, frame);
}

#[test]
fn frame_decode_too_short() {
    let result = ModbusFrame::decode(&[0; 5]);
    assert!(result.is_err());
    assert!(result.unwrap_err().to_string().contains("too short"));
}

#[test]
fn frame_decode_bad_protocol_id() {
    let mut bytes = ModbusFrame {
        transaction_id: 0,
        unit_id: 1,
        function_code: 3,
        data: vec![0, 0, 0, 1],
    }
    .encode();
    // Corrupt protocol ID
    bytes[2] = 0x00;
    bytes[3] = 0x01;
    let result = ModbusFrame::decode(&bytes);
    assert!(result.is_err());
    assert!(result.unwrap_err().to_string().contains("protocol ID"));
}

#[test]
fn frame_decode_exception_response() {
    // Simulate an exception response: FC 0x83 (read holding regs exception), code 2
    let bytes = [
        0x00, 0x01, // txn
        0x00, 0x00, // protocol
        0x00, 0x03, // length = 3 (unit + fc + exception code)
        0x01,       // unit
        0x83,       // FC 03 + 0x80 = exception
        0x02,       // exception code 2 = illegal data address
    ];
    let result = ModbusFrame::decode(&bytes);
    assert!(result.is_err());
    let err = result.unwrap_err().to_string();
    assert!(err.contains("exception"));
}

#[test]
fn frame_decode_truncated() {
    // Length field says 10 bytes but we only have 3 after header
    let bytes = [
        0x00, 0x01, // txn
        0x00, 0x00, // protocol
        0x00, 0x0A, // length = 10
        0x01,       // unit
        0x03,       // FC
        0x00,       // only 1 data byte, need 8 more
    ];
    let result = ModbusFrame::decode(&bytes);
    assert!(result.is_err());
    assert!(result.unwrap_err().to_string().contains("truncated"));
}

#[test]
fn frame_read_coils() {
    let f = ModbusFrame::read_coils(1, 5, 100, 8);
    assert_eq!(f.function_code, fc::READ_COILS);
    assert_eq!(f.unit_id, 5);
    assert_eq!(f.data, vec![0x00, 0x64, 0x00, 0x08]);
}

#[test]
fn frame_read_discrete_inputs() {
    let f = ModbusFrame::read_discrete_inputs(2, 1, 0, 16);
    assert_eq!(f.function_code, fc::READ_DISCRETE_INPUTS);
    assert_eq!(f.data, vec![0x00, 0x00, 0x00, 0x10]);
}

#[test]
fn frame_read_holding_registers() {
    let f = ModbusFrame::read_holding_registers(3, 1, 40001, 2);
    assert_eq!(f.function_code, fc::READ_HOLDING_REGISTERS);
    // 40001 = 0x9C41
    assert_eq!(f.data, vec![0x9C, 0x41, 0x00, 0x02]);
}

#[test]
fn frame_read_input_registers() {
    let f = ModbusFrame::read_input_registers(4, 1, 30001, 1);
    assert_eq!(f.function_code, fc::READ_INPUT_REGISTERS);
}

#[test]
fn frame_write_single_coil_on() {
    let f = ModbusFrame::write_single_coil(5, 1, 50, true);
    assert_eq!(f.function_code, fc::WRITE_SINGLE_COIL);
    assert_eq!(f.data, vec![0x00, 0x32, 0xFF, 0x00]); // addr=50, value=0xFF00
}

#[test]
fn frame_write_single_coil_off() {
    let f = ModbusFrame::write_single_coil(6, 1, 50, false);
    assert_eq!(f.data, vec![0x00, 0x32, 0x00, 0x00]); // addr=50, value=0x0000
}

#[test]
fn frame_write_single_register() {
    let f = ModbusFrame::write_single_register(7, 1, 100, 1234);
    assert_eq!(f.function_code, fc::WRITE_SINGLE_REGISTER);
    // addr=100 (0x0064), value=1234 (0x04D2)
    assert_eq!(f.data, vec![0x00, 0x64, 0x04, 0xD2]);
}

#[test]
fn frame_write_multiple_registers() {
    let f = ModbusFrame::write_multiple_registers(8, 1, 200, &[100, 200]);
    assert_eq!(f.function_code, fc::WRITE_MULTIPLE_REGISTERS);
    // start=200, count=2, byte_count=4, values
    assert_eq!(
        f.data,
        vec![
            0x00, 0xC8, // start addr 200
            0x00, 0x02, // count 2
            0x04,       // byte count 4
            0x00, 0x64, // value 100
            0x00, 0xC8, // value 200
        ]
    );
}

#[test]
fn parse_register_response_two_regs() {
    let resp = ModbusFrame {
        transaction_id: 1,
        unit_id: 1,
        function_code: fc::READ_HOLDING_REGISTERS,
        data: vec![0x04, 0x00, 0x64, 0x01, 0xF4], // byte_count=4, reg[0]=100, reg[1]=500
    };
    let regs = resp.parse_register_response().unwrap();
    assert_eq!(regs, vec![100, 500]);
}

#[test]
fn parse_register_response_empty() {
    let resp = ModbusFrame {
        transaction_id: 1,
        unit_id: 1,
        function_code: fc::READ_HOLDING_REGISTERS,
        data: vec![],
    };
    assert!(resp.parse_register_response().is_err());
}

#[test]
fn parse_coil_response_8_coils() {
    // 8 coils: bits 0,1,4 are ON = 0b00010011 = 0x13
    let resp = ModbusFrame {
        transaction_id: 1,
        unit_id: 1,
        function_code: fc::READ_COILS,
        data: vec![0x01, 0x13], // byte_count=1, data=0x13
    };
    let coils = resp.parse_coil_response(8).unwrap();
    assert_eq!(coils.len(), 8);
    assert!(coils[0]);  // bit 0
    assert!(coils[1]);  // bit 1
    assert!(!coils[2]); // bit 2
    assert!(!coils[3]); // bit 3
    assert!(coils[4]);  // bit 4
    assert!(!coils[5]); // bit 5
    assert!(!coils[6]); // bit 6
    assert!(!coils[7]); // bit 7
}

#[test]
fn parse_coil_response_empty() {
    let resp = ModbusFrame {
        transaction_id: 1,
        unit_id: 1,
        function_code: fc::READ_COILS,
        data: vec![],
    };
    assert!(resp.parse_coil_response(1).is_err());
}

#[test]
fn register_type_read_fc() {
    assert_eq!(RegisterType::Coil.read_fc(), fc::READ_COILS);
    assert_eq!(RegisterType::DiscreteInput.read_fc(), fc::READ_DISCRETE_INPUTS);
    assert_eq!(RegisterType::HoldingRegister.read_fc(), fc::READ_HOLDING_REGISTERS);
    assert_eq!(RegisterType::InputRegister.read_fc(), fc::READ_INPUT_REGISTERS);
}

#[test]
fn register_type_writable() {
    assert!(RegisterType::Coil.is_writable());
    assert!(RegisterType::HoldingRegister.is_writable());
    assert!(!RegisterType::DiscreteInput.is_writable());
    assert!(!RegisterType::InputRegister.is_writable());
}

#[test]
fn register_type_label() {
    assert_eq!(RegisterType::HoldingRegister.label(), "HR");
    assert_eq!(RegisterType::InputRegister.label(), "IR");
    assert_eq!(RegisterType::Coil.label(), "CO");
    assert_eq!(RegisterType::DiscreteInput.label(), "DI");
}

#[test]
fn register_type_display() {
    assert_eq!(RegisterType::HoldingRegister.to_string(), "HR");
}

#[test]
fn modbus_driver_new() {
    let d = driver("mb-1", "192.168.1.100", 502, 1);
    assert_eq!(d.id(), "mb-1");
    assert_eq!(d.host(), "192.168.1.100");
    assert_eq!(d.port(), 502);
    assert_eq!(d.slave_id(), 1);
    assert_eq!(d.driver_type(), "modbus");
    assert_eq!(*d.status(), DriverStatus::Pending);
    assert!(!d.is_connected());
    assert_eq!(d.register_count(), 0);
}

#[test]
fn modbus_driver_register_map() {
    let mut d = driver("mb-2", "x", 502, 1);
    d.add_register(100, ModbusRegister::new(40001, RegisterType::HoldingRegister));
    d.add_register(200, ModbusRegister::new(0, RegisterType::Coil));
    assert_eq!(d.register_count(), 2);

    let reg = d.get_register(100).unwrap();
    assert_eq!(reg.address, 40001);
    assert_eq!(reg.register_type, RegisterType::HoldingRegister);

    assert!(d.get_register(999).is_none());
}

#[test]
fn modbus_write_readonly_register() {
    let mut d = driver("mb-9", "x", 502, 1);
    d.add_register(100, ModbusRegister::new(0, RegisterType::InputRegister));
    d.connection_made();

    // build_write_frame should fail for InputRegister
    let reg = d.get_register(100).unwrap().clone();
    let result = d.build_write_frame(&reg, true, 42);
    assert!(result.is_err());
    assert!(result.unwrap_err().to_string().contains("read-only"));
}

#[test]
fn modbus_poll_mode() {
    let d = driver("mb-10", "x", 502, 1);
    assert_eq!(d.poll_mode(), PollMode::Buckets);
}

#[test]
fn modbus_transaction_counter_wraps() {
    let mut d = driver("mb-11", "x", 502, 1);
    for txn in 0..u16::MAX {
        assert_eq!(d.next_txn(), txn);
    }
    assert_eq!(d.next_txn(), u16::MAX);
    assert_eq!(d.next_txn(), 0); // wrapped
    assert_eq!(d.next_txn(), 1);
}

#[test]
fn modbus_build_read_frame_types() {
    let mut d = driver("mb-12", "x", 502, 3);

    let reg_hr = ModbusRegister::new(100, RegisterType::HoldingRegister);
    let f = d.build_read_frame(&reg_hr);
    assert_eq!(f.function_code, fc::READ_HOLDING_REGISTERS);
    assert_eq!(f.unit_id, 3);

    let reg_ir = ModbusRegister::new(200, RegisterType::InputRegister);
    let f = d.build_read_frame(&reg_ir);
    assert_eq!(f.function_code, fc::READ_INPUT_REGISTERS);

    let reg_co = ModbusRegister::new(50, RegisterType::Coil);
    let f = d.build_read_frame(&reg_co);
    assert_eq!(f.function_code, fc::READ_COILS);

    let reg_di = ModbusRegister::new(60, RegisterType::DiscreteInput);
    let f = d.build_read_frame(&reg_di);
    assert_eq!(f.function_code, fc::READ_DISCRETE_INPUTS);
}

#[test]
fn modbus_build_write_frame_coil() {
    let mut d = driver("mb-13", "x", 502, 1);
    let reg = ModbusRegister::new(10, RegisterType::Coil);

    let f = d.build_write_frame(&reg, true, 1).unwrap();
    assert_eq!(f.function_code, fc::WRITE_SINGLE_COIL);
    // value=true -> 0xFF00
    assert_eq!(f.data[2..4], [0xFF, 0x00]);

    let f = d.build_write_frame(&reg, false, 0).unwrap();
    assert_eq!(f.data[2..4], [0x00, 0x00]);
}

#[test]
fn modbus_build_write_frame_holding_register() {
    let mut d = driver("mb-14", "x", 502, 1);
    let (scale, offset) = (0.1f64.to_bits(), 0.0f64.to_bits());
    let reg =
        ModbusRegister::with_scaling(100, RegisterType::HoldingRegister, scale, offset);

    // eng=25.0 -> raw = 25.0 / 0.1 = 250
    let f = d.build_write_frame(&reg, true, raw(&reg, 25.0)).unwrap();
    assert_eq!(f.function_code, fc::WRITE_SINGLE_REGISTER);
    // address=100 (0x0064), value=250 (0x00FA)
    assert_eq!(f.data, vec![0x00, 0x64, 0x00, 0xFA]);
}

#[test]
fn modbus_lifecycle_no_server() {
    let mut d = driver("mb-3", "127.0.0.1", 59999, 1);
    let e = d.check_failed("connection refused");
    assert_eq!(
        e.to_string(),
        "comm fault: failed to connect to 127.0.0.1:59999: connection refused"
    );
    let meta = d.opened(false);
    assert!(meta.model.unwrap().contains("offline"));
    assert!(matches!(d.status(), DriverStatus::Fault(_)));

    d.close();
    assert_eq!(*d.status(), DriverStatus::Down);
    assert!(!d.is_connected());
}

#[test]
fn connecting_and_losing_the_connection() {
    let mut d = driver("mb-3", "10.0.0.7", 502, 9);
    d.add_register(1, ModbusRegister::new(0, RegisterType::Coil));
    d.connection_made();
    assert!(d.is_connected());
    assert_eq!(*d.status(), DriverStatus::Running);
    assert_eq!(d.opened(true).model.unwrap(), "Modbus TCP 10.0.0.7:502 unit 9 (1 registers)");
    assert_eq!(d.pinged().model.unwrap(), "Modbus TCP 10.0.0.7:502 unit 9");

    let e = d.connection_lost(LostBy::Timeout, "timed out");
    assert_eq!(e.to_string(), "timeout: read from 10.0.0.7:502: timed out");
    assert_eq!(*d.status(), DriverStatus::Fault("read failed: timed out".to_string()));
    assert!(!d.is_connected());

    d.connection_made();
    let e = d.connection_lost(LostBy::Receive, "connection reset");
    assert_eq!(e.to_string(), "comm fault: read from 10.0.0.7:502: connection reset");
    assert_eq!(*d.status(), DriverStatus::Fault("read failed: connection reset".to_string()));
    assert!(!d.is_connected());

    d.connection_made();
    let e = d.connection_lost(LostBy::Send, "broken pipe");
    assert_eq!(e.to_string(), "comm fault: send to 10.0.0.7:502: broken pipe");
    assert_eq!(*d.status(), DriverStatus::Fault("write failed: broken pipe".to_string()));

    d.connection_made();
    let e = d.connection_lost(LostBy::Connect, "refused");
    assert_eq!(e.to_string(), "comm fault: connect to 10.0.0.7:502: refused");
    assert_eq!(*d.status(), DriverStatus::Fault("connect failed: refused".to_string()));

    d.connection_made();
    let e = d.remote_closed();
    assert_eq!(e.to_string(), "comm fault: connection closed by remote");
    assert!(!d.is_connected());
    assert_eq!(*d.status(), DriverStatus::Fault("connection closed by remote".to_string()));

    assert_eq!(
        d.invalid_address("no such host").to_string(),
        "config fault: invalid address '10.0.0.7:502': no such host"
    );
    assert_eq!(d.no_address().to_string(), "config fault: no addresses for '10.0.0.7:502'");
}

#[test]
fn modbus_learn_empty_map() {
    let d = driver("mb-4", "x", 502, 1);
    let grid = d.learn();
    assert!(grid.is_empty());
}

#[test]
fn modbus_learn_with_registers() {
    let mut d = driver("mb-5", "x", 502, 1);
    d.add_register(100, ModbusRegister::new(40001, RegisterType::HoldingRegister));
    d.add_register(
        200,
        ModbusRegister::with_scaling(0, RegisterType::Coil, 1.0f64.to_bits(), 0.0f64.to_bits()),
    );
    d.add_register(300, ModbusRegister::new(30001, RegisterType::InputRegister));

    let grid = d.learn();
    assert_eq!(grid.len(), 3);
    assert!(grid[0].point.address.starts_with("CO:"));
    assert!(grid[1].point.address.starts_with("HR:"));
    assert!(grid[2].point.address.starts_with("IR:"));
    assert_eq!(grid[0].point.kind, "Bool");
    assert_eq!(grid[1].point.kind, "Number");
    assert_eq!(grid[1].point.tag("writable"), Some(&"true".to_string()));

    assert_eq!(grid[1].point.name, "hr_40001");
    assert_eq!(grid[1].point.address, "HR:40001");
    assert_eq!(grid[1].point.tag("pointId"), Some(&"100".to_string()));
    assert_eq!(grid[2].point.tag("writable"), None);
    assert_eq!(grid[0].scale, None);
    assert_eq!(grid[0].offset, None);
}

#[test]
fn learnt_register_tells_its_scaling() {
    let mut d = driver("mb-5", "x", 502, 1);
    let (scale, offset) = (0.1f64.to_bits(), (-40.0f64).to_bits());
    d.add_register(1, ModbusRegister::with_scaling(7, RegisterType::InputRegister, scale, offset));
    let minus_zero = (-0.0f64).to_bits();
    d.add_register(
        2,
        ModbusRegister::with_scaling(8, RegisterType::InputRegister, 1.0f64.to_bits(), minus_zero),
    );
    let grid = d.learn();
    assert_eq!(grid[0].scale, Some(scale));
    assert_eq!(grid[0].offset, Some(offset));
    assert_eq!(grid[1].scale, None);
    assert_eq!(grid[1].offset, None);
}

#[test]
fn learnt_registers_are_ordered_by_address_text() {
    let mut d = driver("mb-5", "x", 502, 1);
    for (id, address) in [(1, 9), (2, 10), (3, 100), (4, 2)] {
        d.add_register(id, ModbusRegister::new(address, RegisterType::HoldingRegister));
    }
    let addresses: Vec<String> = d.learn().into_iter().map(|l| l.point.address).collect();
    assert_eq!(addresses, vec!["HR:10", "HR:100", "HR:2", "HR:9"]);
}

#[test]
fn modbus_sync_cur_not_connected() {
    let mut d = driver("mb-6", "x", 502, 1);
    d.add_register(100, ModbusRegister::new(0, RegisterType::HoldingRegister));

    let results = d.targets(&[100]);
    assert_eq!(results.len(), 1);
    assert!(results[0].1.is_err());
    assert!(results[0].1.as_ref().unwrap_err().to_string().contains("not connected"));
}

#[test]
fn modbus_sync_cur_unknown_point() {
    let mut d = driver("mb-7", "x", 502, 1);
    d.connection_made();

    let results = d.targets(&[999]);
    assert_eq!(results.len(), 1);
    assert!(results[0].1.is_err());
    assert!(results[0].1.as_ref().unwrap_err().to_string().contains("no register mapping"));
}

#[test]
fn modbus_write_not_connected() {
    let mut d = driver("mb-8", "x", 502, 1);
    d.add_register(100, ModbusRegister::new(0, RegisterType::HoldingRegister));

    let results = d.targets(&[100]);
    assert_eq!(results.len(), 1);
    assert!(results[0].1.is_err());
    assert!(results[0].1.as_ref().unwrap_err().to_string().contains("not connected"));
}

#[test]
fn modbus_sync_cur_empty() {
    let d = driver("mb-15", "x", 502, 1);
    assert!(d.targets(&[]).is_empty());
}

#[test]
fn targets_follow_the_points() {
    let mut d = driver("mb-16", "x", 502, 1);
    let reg = ModbusRegister::new(5, RegisterType::Coil);
    d.add_register(7, reg.clone());
    d.connection_made();
    let results = d.targets(&[7, 8, 7]);
    let ids: Vec<u32> = results.iter().map(|r| r.0).collect();
    assert_eq!(ids, vec![7, 8, 7]);
    assert_eq!(results[0].1.as_ref().unwrap().address, 5);
    assert_eq!(
        results[1].1.as_ref().unwrap_err().to_string(),
        "config fault: no register mapping for point 8"
    );
    assert!(results[2].1.is_ok());
}

#[test]
fn readings_of_coils_and_registers() {
    let coil = ModbusRegister::new(0, RegisterType::Coil);
    let answer = |data: Vec<u8>| ModbusFrame {
        transaction_id: 1,
        unit_id: 1,
        function_code: fc::READ_COILS,
        data,
    };
    assert!(matches!(reading(&coil, &answer(vec![1, 0x01])), Ok(ModbusReading::Bit(true))));
    assert!(matches!(reading(&coil, &answer(vec![1, 0xFE])), Ok(ModbusReading::Bit(false))));
    assert!(matches!(reading(&coil, &answer(vec![0])), Ok(ModbusReading::Bit(false))));
    assert!(reading(&coil, &answer(vec![])).is_err());

    let (scale, offset) = (0.5f64.to_bits(), 3.0f64.to_bits());
    let reg = ModbusRegister::with_scaling(0, RegisterType::InputRegister, scale, offset);
    match reading(&reg, &answer(vec![2, 0x12, 0x34])) {
        Ok(ModbusReading::Raw { raw, scale: s, offset: o }) => {
            assert_eq!(raw, 0x1234);
            assert_eq!(s, scale);
            assert_eq!(o, offset);
        }
        other => panic!("expected a raw value, got {other:?}"),
    }
    match reading(&reg, &answer(vec![0])) {
        Ok(ModbusReading::Raw { raw, .. }) => assert_eq!(raw, 0),
        other => panic!("expected a raw value, got {other:?}"),
    }
    assert!(reading(&reg, &answer(vec![4, 0, 1])).is_err());
}

#[test]
fn length_field_matches_the_data() {
    match ModbusFrame::decode(&[0, 1, 0, 0, 0, 1, 1, 3, 0]) {
        Err(DriverError::CommFault(msg)) => assert_eq!(
            msg,
            "modbus frame length mismatch: have 3 bytes after header, length field states 1"
        ),
        other => panic!("expected a communication fault, got {other:?}"),
    }
    let mut bytes = ModbusFrame::read_coils(1, 1, 0, 1).encode();
    assert!(ModbusFrame::decode(&bytes).is_ok());
    bytes.push(0);
    assert!(matches!(ModbusFrame::decode(&bytes), Err(DriverError::CommFault(_))));
    bytes.truncate(11);
    match ModbusFrame::decode(&bytes) {
        Err(e) => assert_eq!(
            e.to_string(),
            "comm fault: modbus frame truncated: have 5 bytes after header, need 6"
        ),
        Ok(f) => panic!("expected an error, got {f:?}"),
    }
    assert!(ModbusFrame::decode(&[]).is_err());
}

#[test]
fn written_registers_are_read_back() {
    let values: Vec<u16> = vec![0, 1, 0xFFFF, 0x1234];
    let request = ModbusFrame::write_multiple_registers(9, 3, 100, &values);
    let bytes = request.encode();
    assert_eq!(ModbusFrame::decode(&bytes).unwrap(), request);
    let answer = ModbusFrame {
        transaction_id: 9,
        unit_id: 3,
        function_code: fc::READ_HOLDING_REGISTERS,
        data: request.data[4..].to_vec(),
    };
    assert_eq!(answer.parse_register_response().unwrap(), values);
}
