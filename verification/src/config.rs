//! The connection settings of the client and the commands it accepts.
use vstd::prelude::*;
use vstd::string::*;
use crate::text::{chars_of, digits_of, push_digits, string_of};

verus! {

/// A command for the client.
#[derive(Debug, Clone)]
pub enum ModbusCommand {
    /// Close the connection.
    Disconnect,
    /// Open a connection with the current settings.
    Connect,
    /// Write one coil: its address and value.
    WriteCoil(u16, bool),
    /// Write holding registers: the address of the first and the words.
    WriteHoldRegister(u16, Vec<u16>),
}

/// The transport of the connection.
#[derive(Clone, Debug, PartialEq, Eq, Structural)]
pub enum Protocal {
    Tcp,
    Rtu,
}

impl Protocal {
    /// The name of the transport.
    pub open spec fn name(self) -> Seq<char> {
        match self {
            Protocal::Tcp => seq!['T', 'C', 'P'],
            Protocal::Rtu => seq!['R', 'T', 'U'],
        }
    }

    /// The name of the transport: `"TCP"` or `"RTU"`.
    pub fn as_str(&self) -> (s: &'static str)
        ensures
            s@ == self.name(),
    {
        match self {
            Protocal::Tcp => {
                proof {
                    reveal_strlit("TCP");
                }
                "TCP"
            },
            Protocal::Rtu => {
                proof {
                    reveal_strlit("RTU");
                }
                "RTU"
            },
        }
    }
}

/// Settings of a Modbus TCP connection.
#[derive(Clone, Debug)]
pub struct TcpConfig {
    pub ip: String,
    pub port: u16,
}

impl TcpConfig {
    /// The local host, port 502.
    pub fn new() -> (c: Self)
        ensures
            c.ip@ == seq!['1', '2', '7', '.', '0', '.', '0', '.', '1'],
            c.port == 502,
    {
        proof {
            reveal_strlit("127.0.0.1");
        }
        TcpConfig { ip: String::from_str("127.0.0.1"), port: 502 }
    }

    /// The address to connect to, `ip:port`, with the port in decimal.
    pub fn socket_addr_text(&self) -> (s: String)
        ensures
            s@ == self.ip@ + seq![':'] + digits_of(self.port as nat, 10),
    {
        let mut v = chars_of(self.ip.as_str());
        v.push(':');
        push_digits(&mut v, self.port as u64, 10);
        string_of(&v)
    }
}

/// The parity of a serial line.
#[derive(Clone, Copy, Debug, PartialEq, Eq, Structural)]
pub enum Parity {
    /// No parity bit.
    Disabled,
    Odd,
    Even,
}

/// What opening a serial line takes.
#[derive(Clone, Debug)]
pub struct SerialSettings {
    pub port: String,
    pub baudrate: u32,
    pub parity: Parity,
    pub slave: u8,
}

/// Why RTU settings cannot be used.
#[derive(Clone, Copy, Debug, PartialEq, Eq, Structural)]
pub enum RtuConfigError {
    /// No serial port was chosen.
    PortMissing,
}

impl RtuConfigError {
    /// The text of the error.
    pub open spec fn text(self) -> Seq<char> {
        "modbus rtu config error: com port is None"@
    }

    /// The text of the error.
    pub fn message(&self) -> (s: String)
        ensures
            s@ == self.text(),
    {
        String::from_str("modbus rtu config error: com port is None")
    }
}

/// Settings of a Modbus RTU (serial) connection.
#[derive(Clone, Debug)]
pub struct RtuConfig {
    pub port: Option<String>,
    pub baudrate: u32,
    /// `'E'` or `'e'` for even parity, `'O'` or `'o'` for odd, anything else for none.
    pub parity: char,
    pub slave: u8,
}

/// The parity that a parity letter stands for.
pub open spec fn parity_of(c: char) -> Parity {
    if c == 'E' || c == 'e' {
        Parity::Even
    } else if c == 'O' || c == 'o' {
        Parity::Odd
    } else {
        Parity::Disabled
    }
}

impl RtuConfig {
    /// No port chosen, 115200 baud, no parity, slave 1.
    pub fn new() -> (c: Self)
        ensures
            c.port is None,
            c.baudrate == 115200,
            c.parity == 'N',
            c.slave == 1,
    {
        RtuConfig { port: None, baudrate: 115200, parity: 'N', slave: 1 }
    }

    /// The parity that the parity letter stands for.
    pub fn parity_mode(&self) -> (p: Parity)
        ensures
            p == parity_of(self.parity),
    {
        match self.parity {
            'E' | 'e' => Parity::Even,
            'O' | 'o' => Parity::Odd,
            _ => Parity::Disabled,
        }
    }

    /// The settings to open the serial line with; an error when no port was chosen.
    pub fn serial_settings(&self) -> (r: Result<SerialSettings, RtuConfigError>)
        ensures
            match r {
                Ok(s) => self.port matches Some(p) && s.port@ == p@ && s.baudrate == self.baudrate
                    && s.parity == parity_of(self.parity) && s.slave == self.slave,
                Err(e) => self.port is None && e == RtuConfigError::PortMissing,
            },
    {
        match &self.port {
            None => Err(RtuConfigError::PortMissing),
            Some(p) => Ok(
                SerialSettings {
                    port: p.clone(),
                    baudrate: self.baudrate,
                    parity: self.parity_mode(),
                    slave: self.slave,
                },
            ),
        }
    }
}

/// All settings of the client.
#[derive(Clone, Debug)]
pub struct ModbusConfig {
    pub protocol: Protocal,
    pub tcp_config: TcpConfig,
    pub rtu_config: RtuConfig,
    /// Milliseconds between two polls.
    pub poll_ms: u64,
    /// Milliseconds a request may take.
    pub timeout: u64,
}

impl ModbusConfig {
    /// TCP to the local host, polled every 100 ms with a 500 ms timeout.
    pub fn new() -> (c: Self)
        ensures
            c.protocol == Protocal::Tcp,
            c.tcp_config.ip@ == seq!['1', '2', '7', '.', '0', '.', '0', '.', '1'],
            c.tcp_config.port == 502,
            c.rtu_config.port is None,
            c.rtu_config.baudrate == 115200,
            c.rtu_config.parity == 'N',
            c.rtu_config.slave == 1,
            c.poll_ms == 100,
            c.timeout == 500,
    {
        ModbusConfig {
            protocol: Protocal::Tcp,
            tcp_config: TcpConfig::new(),
            rtu_config: RtuConfig::new(),
            poll_ms: 100,
            timeout: 500,
        }
    }
}

} // verus!
