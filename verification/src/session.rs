//! The decisions of the client: what it shows the user and what becomes of
//! the connection after each poll of a table and after each command.
//!
//! The polling loop reads the four tables in turn. An error stops the round;
//! it is shown unless an error is already shown, and the region whose error
//! is shown clears it by its next successful read. A transport error drops
//! the connection. Commands report their own errors directly.
use vstd::prelude::*;
use vstd::string::*;

verus! {

/// The four data tables, in the order they are polled.
#[derive(Clone, Copy, Debug, PartialEq, Eq, Structural)]
pub enum Region {
    Coils,
    DiscreteInputs,
    InputRegisters,
    HoldingRegisters,
}

impl Region {
    /// The number that marks an error of this region as the one shown (1 to 4).
    pub open spec fn code(self) -> u8 {
        match self {
            Region::Coils => 1,
            Region::DiscreteInputs => 2,
            Region::InputRegisters => 3,
            Region::HoldingRegisters => 4,
        }
    }

    /// The name of the region in error messages.
    pub open spec fn name(self) -> Seq<char> {
        match self {
            Region::Coils => "coils"@,
            Region::DiscreteInputs => "discrete_inputs"@,
            Region::InputRegisters => "input_registers"@,
            Region::HoldingRegisters => "holding_registers"@,
        }
    }

    /// The message of a read of this region that timed out.
    pub open spec fn timeout_text(self) -> Seq<char> {
        match self {
            Region::Coils => "Modbus read coils timeout"@,
            Region::DiscreteInputs => "Modbus read discrete_input timeout"@,
            Region::InputRegisters => "Modbus read input_registers timeout"@,
            Region::HoldingRegisters => "Modbus read holding_registers timeout"@,
        }
    }

    fn code_of(&self) -> (c: u8)
        ensures
            c == self.code(),
    {
        match self {
            Region::Coils => 1,
            Region::DiscreteInputs => 2,
            Region::InputRegisters => 3,
            Region::HoldingRegisters => 4,
        }
    }

    fn name_str(&self) -> (s: &'static str)
        ensures
            s@ == self.name(),
    {
        match self {
            Region::Coils => "coils",
            Region::DiscreteInputs => "discrete_inputs",
            Region::InputRegisters => "input_registers",
            Region::HoldingRegisters => "holding_registers",
        }
    }

    /// The message of a read of this region that timed out.
    pub fn timeout_message(&self) -> (s: &'static str)
        ensures
            s@ == self.timeout_text(),
    {
        match self {
            Region::Coils => "Modbus read coils timeout",
            Region::DiscreteInputs => "Modbus read discrete_input timeout",
            Region::InputRegisters => "Modbus read input_registers timeout",
            Region::HoldingRegisters => "Modbus read holding_registers timeout",
        }
    }
}

/// The tables in the order one polling round reads them.
pub fn poll_order() -> (r: Vec<Region>)
    ensures
        r@ == seq![
            Region::Coils,
            Region::DiscreteInputs,
            Region::InputRegisters,
            Region::HoldingRegisters,
        ],
{
    vec![Region::Coils, Region::DiscreteInputs, Region::InputRegisters, Region::HoldingRegisters]
}

/// How long the polling loop waits before its next step: the polling period
/// when connected, one second (before looking again) when not.
pub fn poll_wait_ms(connected: bool, poll_ms: u64) -> (ms: u64)
    ensures
        ms == if connected {
            poll_ms
        } else {
            1000
        },
{
    if connected {
        poll_ms
    } else {
        1000
    }
}

/// How a read of a table ended. The strings are the descriptions of the
/// errors that the Modbus transport reported.
#[derive(Clone, Debug)]
pub enum ReadOutcome {
    /// The items were read.
    Done,
    /// The device answered with a Modbus exception.
    Business(String),
    /// The request failed in transport.
    Transport(String),
    /// No answer came in time.
    Timeout,
}

/// What becomes of the message shown to the user.
#[derive(Clone, Debug)]
pub enum Notice {
    /// It stays as it is.
    Keep,
    /// It is removed.
    Clear,
    /// It becomes this text.
    Show(String),
}

/// What becomes of the connection.
#[derive(Clone, Copy, Debug, PartialEq, Eq, Structural)]
pub enum Link {
    /// It stays as it is.
    Keep,
    /// The new connection is kept and the client is connected.
    Open,
    /// The connection is dropped and the client is disconnected.
    Close,
}

/// What the polling loop does after reading a table.
#[derive(Clone, Debug)]
pub struct PollStep {
    /// Store the items read and go on to the next table; otherwise the round ends here.
    pub store: bool,
    pub link: Link,
    pub notice: Notice,
    /// Ask the user interface to draw again.
    pub repaint: bool,
}

/// What the client does after a command.
#[derive(Clone, Debug)]
pub struct Reaction {
    pub link: Link,
    pub notice: Notice,
}

/// Whether `n` is `Show` with the text `t`.
pub open spec fn shows(n: Notice, t: Seq<char>) -> bool {
    n matches Notice::Show(s) && s@ == t
}

/// The message of a read of `region` that failed with `outcome`; the
/// timeout message for anything but an exception or a transport error.
pub open spec fn read_error_text(region: Region, outcome: ReadOutcome) -> Seq<char> {
    match outcome {
        ReadOutcome::Business(d) => "Business logic error: "@ + d@ + ", "@ + region.name(),
        ReadOutcome::Transport(d) => "Modbus transport error: "@ + d@ + ", "@ + region.name(),
        _ => region.timeout_text(),
    }
}

/// Tracks which table's read error the user is shown, across polling rounds.
pub struct PollMonitor {
    shown: u8,
}

impl PollMonitor {
    /// The code of the region whose error is shown, 0 when none is.
    pub closed spec fn shown(&self) -> u8 {
        self.shown
    }

    /// No error shown.
    pub fn new() -> (m: Self)
        ensures
            m.shown() == 0,
    {
        PollMonitor { shown: 0 }
    }

    /// The step after reading `region` with `outcome`.
    ///
    /// A success stores the items, and clears the message when it is this
    /// region's error. A failure ends the round; its message is shown only
    /// when no error is shown, and then this region's error becomes the one
    /// shown, until this region reads again. A transport error drops the
    /// connection.
    pub fn on_read(&mut self, region: Region, outcome: &ReadOutcome) -> (step: PollStep)
        requires
            old(self).shown() <= 4,
        ensures
            final(self).shown() <= 4,
            step.store == (outcome is Done),
            step.link == if outcome is Transport {
                Link::Close
            } else {
                Link::Keep
            },
            outcome is Done ==> if old(self).shown() == region.code() {
                &&& step.notice is Clear
                &&& step.repaint
                &&& final(self).shown() == 0
            } else {
                &&& step.notice is Keep
                &&& !step.repaint
                &&& final(self).shown() == old(self).shown()
            },
            !(outcome is Done) ==> if old(self).shown() == 0 {
                &&& shows(step.notice, read_error_text(region, *outcome))
                &&& step.repaint
                &&& final(self).shown() == region.code()
            } else {
                &&& step.notice is Keep
                &&& !step.repaint
                &&& final(self).shown() == old(self).shown()
            },
    {
        let code = region.code_of();
        match outcome {
            ReadOutcome::Done => {
                if self.shown == code {
                    self.shown = 0;
                    PollStep { store: true, link: Link::Keep, notice: Notice::Clear, repaint: true }
                } else {
                    PollStep { store: true, link: Link::Keep, notice: Notice::Keep, repaint: false }
                }
            },
            _ => {
                let link = match outcome {
                    ReadOutcome::Transport(_) => Link::Close,
                    _ => Link::Keep,
                };
                if self.shown == 0 {
                    let msg = match outcome {
                        ReadOutcome::Business(d) => {
                            let mut m = String::from_str("Business logic error: ");
                            m.append(d.as_str());
                            m.append(", ");
                            m.append(region.name_str());
                            m
                        },
                        ReadOutcome::Transport(d) => {
                            let mut m = String::from_str("Modbus transport error: ");
                            m.append(d.as_str());
                            m.append(", ");
                            m.append(region.name_str());
                            m
                        },
                        _ => String::from_str(region.timeout_message()),
                    };
                    self.shown = code;
                    PollStep { store: false, link, notice: Notice::Show(msg), repaint: true }
                } else {
                    PollStep { store: false, link, notice: Notice::Keep, repaint: false }
                }
            },
        }
    }

    /// Whether to draw again at the end of a round in which every table was
    /// read: when no error is shown.
    pub fn on_round_end(&self) -> (repaint: bool)
        ensures
            repaint == (self.shown() == 0),
    {
        self.shown == 0
    }
}

/// The kind of a write command.
#[derive(Clone, Copy, Debug, PartialEq, Eq, Structural)]
pub enum WriteKind {
    Coil,
    HoldRegister,
}

/// How a write request ended. The strings are the descriptions of the errors
/// that the Modbus transport reported.
#[derive(Clone, Debug)]
pub enum WriteOutcome {
    /// The device took the write.
    Done,
    /// The device answered with a Modbus exception.
    Exception(String),
    /// The request failed in transport.
    Transport(String),
    /// No answer came in time.
    Timeout,
}

impl WriteKind {
    /// The message of a write refused by the device, before its description.
    pub open spec fn exception_prefix(self) -> Seq<char> {
        match self {
            WriteKind::Coil => "Modbus write coil error: "@,
            WriteKind::HoldRegister => "Modbus write hold register error: "@,
        }
    }

    /// The message of a write that failed in transport, before its description.
    pub open spec fn transport_prefix(self) -> Seq<char> {
        match self {
            WriteKind::Coil => "ModbusClient write coil error: "@,
            WriteKind::HoldRegister => "ModbusClient write hold register error: "@,
        }
    }

    /// The message of a write that timed out.
    pub open spec fn timeout_text(self) -> Seq<char> {
        match self {
            WriteKind::Coil => "ModbusClient write coil timeout"@,
            WriteKind::HoldRegister => "modbus write hold register timeout"@,
        }
    }

    /// The message of a write made while not connected.
    pub open spec fn offline_text(self) -> Seq<char> {
        match self {
            WriteKind::Coil => "ModbusClient write coil error: not connected"@,
            WriteKind::HoldRegister => "ModbusClient write hold register error: not connected"@,
        }
    }

    /// The message, if any, of a write that ended with `outcome` (`None`:
    /// there was no connection to write on).
    pub open spec fn message(self, outcome: Option<WriteOutcome>) -> Option<Seq<char>> {
        match outcome {
            None => Some(self.offline_text()),
            Some(WriteOutcome::Done) => None,
            Some(WriteOutcome::Exception(d)) => Some(self.exception_prefix() + d@),
            Some(WriteOutcome::Transport(d)) => Some(self.transport_prefix() + d@),
            Some(WriteOutcome::Timeout) => Some(self.timeout_text()),
        }
    }
}

/// The reaction to a disconnect command: the connection is dropped and the
/// message cleared.
pub fn disconnect_reaction() -> (r: Reaction)
    ensures
        r.link == Link::Close,
        r.notice is Clear,
{
    Reaction { link: Link::Close, notice: Notice::Clear }
}

/// The reaction to the end of a connection attempt: on success the new
/// connection is kept and the message cleared; on failure the client is
/// disconnected and the error's description shown.
pub fn connect_reaction(result: Result<(), String>) -> (r: Reaction)
    ensures
        match result {
            Ok(()) => r.link == Link::Open && r.notice is Clear,
            Err(e) => r.link == Link::Close && shows(r.notice, e@),
        },
{
    match result {
        Ok(()) => Reaction { link: Link::Open, notice: Notice::Clear },
        Err(e) => Reaction { link: Link::Close, notice: Notice::Show(e) },
    }
}

/// The reaction to the end of a write of kind `kind` (`outcome` is `None`
/// when there was no connection). A transport error drops the connection;
/// every failure is shown; a success leaves the message as it is.
pub fn write_reaction(kind: WriteKind, outcome: Option<WriteOutcome>) -> (r: Reaction)
    ensures
        r.link == if outcome matches Some(WriteOutcome::Transport(_)) {
            Link::Close
        } else {
            Link::Keep
        },
        match kind.message(outcome) {
            None => r.notice is Keep,
            Some(t) => shows(r.notice, t),
        },
{
    let coil = match kind {
        WriteKind::Coil => true,
        WriteKind::HoldRegister => false,
    };
    match outcome {
        None => {
            let m = if coil {
                String::from_str("ModbusClient write coil error: not connected")
            } else {
                String::from_str("ModbusClient write hold register error: not connected")
            };
            Reaction { link: Link::Keep, notice: Notice::Show(m) }
        },
        Some(WriteOutcome::Done) => Reaction { link: Link::Keep, notice: Notice::Keep },
        Some(WriteOutcome::Exception(d)) => {
            let mut m = if coil {
                String::from_str("Modbus write coil error: ")
            } else {
                String::from_str("Modbus write hold register error: ")
            };
            m.append(d.as_str());
            Reaction { link: Link::Keep, notice: Notice::Show(m) }
        },
        Some(WriteOutcome::Transport(d)) => {
            let mut m = if coil {
                String::from_str("ModbusClient write coil error: ")
            } else {
                String::from_str("ModbusClient write hold register error: ")
            };
            m.append(d.as_str());
            Reaction { link: Link::Close, notice: Notice::Show(m) }
        },
        Some(WriteOutcome::Timeout) => {
            let m = if coil {
                String::from_str("ModbusClient write coil timeout")
            } else {
                String::from_str("modbus write hold register timeout")
            };
            Reaction { link: Link::Keep, notice: Notice::Show(m) }
        },
    }
}

} // verus!
