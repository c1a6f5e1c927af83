use modbus_client::config::{
    ModbusCommand, ModbusConfig, Parity, Protocal, RtuConfig, RtuConfigError, TcpConfig,
};

#[test]
fn default_settings() {
    let c = ModbusConfig::new();
    assert_eq!(c.protocol, Protocal::Tcp);
    assert_eq!(c.tcp_config.ip, "127.0.0.1");
    assert_eq!(c.tcp_config.port, 502);
    assert_eq!(c.rtu_config.port, None);
    assert_eq!(c.rtu_config.baudrate, 115200);
    assert_eq!(c.rtu_config.parity, 'N');
    assert_eq!(c.rtu_config.slave, 1);
    assert_eq!(c.poll_ms, 100);
    assert_eq!(c.timeout, 500);
}

#[test]
fn protocol_names() {
    assert_eq!(Protocal::Tcp.as_str(), "TCP");
    assert_eq!(Protocal::Rtu.as_str(), "RTU");
}

#[test]
fn tcp_address_text() {
    assert_eq!(TcpConfig::new().socket_addr_text(), "127.0.0.1:502");
    let c = TcpConfig { ip: "10.0.0.7".to_string(), port: 0 };
    assert_eq!(c.socket_addr_text(), "10.0.0.7:0");
    let c = TcpConfig { ip: "::1".to_string(), port: 65535 };
    assert_eq!(c.socket_addr_text(), "::1:65535");
}

#[test]
fn rtu_parity_letters() {
    let mut c = RtuConfig::new();
    for (ch, p) in [('E', Parity::Even), ('e', Parity::Even), ('O', Parity::Odd), ('o', Parity::Odd),
                    ('N', Parity::Disabled), ('x', Parity::Disabled)] {
        c.parity = ch;
        assert_eq!(c.parity_mode(), p);
    }
}

#[test]
fn rtu_serial_settings() {
    let mut c = RtuConfig::new();
    match c.serial_settings() {
        Err(e) => {
            assert_eq!(e, RtuConfigError::PortMissing);
            assert_eq!(e.message(), "modbus rtu config error: com port is None");
        }
        Ok(_) => panic!("a port is needed"),
    }
    c.port = Some("/dev/ttyUSB0".to_string());
    c.parity = 'o';
    c.slave = 7;
    let s = c.serial_settings().unwrap();
    assert_eq!(s.port, "/dev/ttyUSB0");
    assert_eq!(s.baudrate, 115200);
    assert_eq!(s.parity, Parity::Odd);
    assert_eq!(s.slave, 7);
}

#[test]
fn commands_carry_their_data() {
    let c = ModbusCommand::WriteHoldRegister(3, vec![1, 2]);
    match c.clone() {
        ModbusCommand::WriteHoldRegister(a, v) => {
            assert_eq!(a, 3);
            assert_eq!(v, vec![1, 2]);
        }
        _ => panic!(),
    }
    assert!(matches!(ModbusCommand::WriteCoil(1, true), ModbusCommand::WriteCoil(1, true)));
}
