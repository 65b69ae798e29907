//! Offsets inside a socket's register block, and the values that its mode,
//! command and interrupt registers take.

use vstd::prelude::*;

verus! {

/// Socket mode: which protocol the socket speaks. One byte.
pub const MODE: u16 = 0x0000;

/// Socket command. One byte; the chip clears it once the command is taken.
pub const COMMAND: u16 = 0x0001;

/// Socket interrupt flags. One byte; writing a one clears that flag.
pub const INTERRUPT: u16 = 0x0002;

/// Local port. Two bytes.
pub const SOURCE_PORT: u16 = 0x0004;

/// Address of the peer. Four bytes.
pub const DESTINATION_IP: u16 = 0x000C;

/// Port of the peer. Two bytes.
pub const DESTINATION_PORT: u16 = 0x0010;

/// Transmit read pointer: up to where the chip has sent. Two bytes.
pub const TX_DATA_READ_POINTER: u16 = 0x0022;

/// Transmit write pointer: up to where the host has written. Two bytes.
pub const TX_DATA_WRITE_POINTER: u16 = 0x0024;

/// Number of received bytes that wait in the receive buffer. Two bytes.
pub const RECEIVED_SIZE: u16 = 0x0026;

/// Receive read pointer: up to where the host has read. Two bytes.
pub const RX_DATA_READ_POINTER: u16 = 0x0028;

/// Receive write pointer: up to where the chip has written. Two bytes.
pub const RX_DATA_WRITE_POINTER: u16 = 0x002A;

/// Which interrupt flags reach the interrupt pin. One byte.
pub const INTERRUPT_MASK: u16 = 0x002C;

/// Protocol of a socket, as written to its mode register.
#[derive(Clone, Copy, PartialEq, Eq, Structural, Debug)]
pub enum Protocol {
    Closed,
    Tcp,
    Udp,
    MacRaw,
}

impl Protocol {
    /// The value of the mode register for this protocol.
    pub open spec fn bits(self) -> u8 {
        match self {
            Protocol::Closed => 0x00,
            Protocol::Tcp => 0x01,
            Protocol::Udp => 0x02,
            Protocol::MacRaw => 0x04,
        }
    }

    /// The value of the mode register for this protocol.
    pub fn to_u8(self) -> (value: u8)
        ensures
            value == self.bits(),
    {
        match self {
            Protocol::Closed => 0x00,
            Protocol::Tcp => 0x01,
            Protocol::Udp => 0x02,
            Protocol::MacRaw => 0x04,
        }
    }
}

/// Command to a socket, as written to its command register.
#[derive(Clone, Copy, PartialEq, Eq, Structural, Debug)]
pub enum Command {
    Open,
    Listen,
    Connect,
    Disconnect,
    Close,
    /// Send what lies between the transmit read and write pointers.
    Send,
    /// Acknowledge that the host has read up to the receive read pointer.
    Receive,
}

impl Command {
    /// The value of the command register for this command.
    pub open spec fn bits(self) -> u8 {
        match self {
            Command::Open => 0x01,
            Command::Listen => 0x02,
            Command::Connect => 0x04,
            Command::Disconnect => 0x08,
            Command::Close => 0x10,
            Command::Send => 0x20,
            Command::Receive => 0x40,
        }
    }

    /// The value of the command register for this command.
    pub fn to_u8(self) -> (value: u8)
        ensures
            value == self.bits(),
    {
        match self {
            Command::Open => 0x01,
            Command::Listen => 0x02,
            Command::Connect => 0x04,
            Command::Disconnect => 0x08,
            Command::Close => 0x10,
            Command::Send => 0x20,
            Command::Receive => 0x40,
        }
    }
}

/// Interrupt flags of a socket, as bits of its interrupt register.
#[derive(Clone, Copy, PartialEq, Eq, Structural, Debug)]
pub enum Interrupt {
    /// Every flag at once.
    All,
    /// The send command has completed.
    SendOk,
    /// A transmission timed out.
    Timeout,
    /// Data has arrived.
    Receive,
    /// The peer has disconnected.
    Disconnect,
    /// The connection is established.
    Connect,
}

impl Interrupt {
    /// The bits of the interrupt register that make up this flag.
    pub open spec fn bits(self) -> u8 {
        match self {
            Interrupt::All => 0xff,
            Interrupt::SendOk => 0x10,
            Interrupt::Timeout => 0x08,
            Interrupt::Receive => 0x04,
            Interrupt::Disconnect => 0x02,
            Interrupt::Connect => 0x01,
        }
    }

    /// The bits of the interrupt register that make up this flag.
    pub fn to_u8(self) -> (value: u8)
        ensures
            value == self.bits(),
    {
        match self {
            Interrupt::All => 0xff,
            Interrupt::SendOk => 0x10,
            Interrupt::Timeout => 0x08,
            Interrupt::Receive => 0x04,
            Interrupt::Disconnect => 0x02,
            Interrupt::Connect => 0x01,
        }
    }
}

/// Whether a value of the interrupt register has any of the bits of `mask` set.
pub open spec fn has_flag(value: u8, mask: u8) -> bool {
    value & mask != 0
}

} // verus!
