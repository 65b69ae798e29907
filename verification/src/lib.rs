//! Driver core for the W5500 hardwired TCP/IP Ethernet controller.
//!
//! The chip keeps its socket state and packet buffers in register blocks that
//! the host reaches through framed transactions on a serial bus. This crate
//! holds the parts of a driver that can be stated and proved exactly:
//!
//! - [`bus`]: how a frame is laid out on the wires, and the history of frames
//!   that the contracts of everything else speak of;
//! - [`register`]: where each socket's registers and buffers live;
//! - [`socket`]: the operations on a socket's registers;
//! - [`ring`]: the circular buffers and their pointers;
//! - [`udp`]: sending and receiving datagrams;
//! - [`pool`]: which sockets are in use;
//! - [`net`] and [`bytes`]: addresses and big-endian values.
//!
//! Everything a procedure does to the chip goes through a
//! [`bus::TracedBus`]. The contract of a procedure says which frames it adds
//! to the history of the bus, in which order, and how its result follows from
//! what the chip answered. Nothing is assumed of the chip.
//!
//! No procedure waits without bound. Where the chip has to be polled, the
//! caller says how often, and the result tells when the polls ran out.

use vstd::prelude::*;

pub mod bus;
pub mod bytes;
pub mod net;
pub mod pool;
pub mod register;
pub mod ring;
pub mod socket;
pub mod udp;

pub use net::MacAddress;

verus! {

/// Whether the chip raises an interrupt when a wake-on-LAN packet arrives.
#[derive(Copy, Clone, PartialOrd, PartialEq, Debug)]
pub enum OnWakeOnLan {
    Ignore,
    InvokeInterrupt,
}

impl OnWakeOnLan {
    /// The bit of the chip's mode register for this setting.
    pub open spec fn bits(self) -> u8 {
        match self {
            OnWakeOnLan::Ignore => 0b0000_0000,
            OnWakeOnLan::InvokeInterrupt => 0b0010_0000,
        }
    }

    /// The bit of the chip's mode register for this setting.
    pub fn to_u8(self) -> (value: u8)
        ensures
            value == self.bits(),
    {
        match self {
            OnWakeOnLan::Ignore => 0b0000_0000,
            OnWakeOnLan::InvokeInterrupt => 0b0010_0000,
        }
    }
}

/// Whether the chip answers ping requests.
#[derive(Copy, Clone, PartialOrd, PartialEq, Debug)]
pub enum OnPingRequest {
    Respond,
    Ignore,
}

impl OnPingRequest {
    /// The bit of the chip's mode register for this setting.
    pub open spec fn bits(self) -> u8 {
        match self {
            OnPingRequest::Respond => 0b0000_0000,
            OnPingRequest::Ignore => 0b0001_0000,
        }
    }

    /// The bit of the chip's mode register for this setting.
    pub fn to_u8(self) -> (value: u8)
        ensures
            value == self.bits(),
    {
        match self {
            OnPingRequest::Respond => 0b0000_0000,
            OnPingRequest::Ignore => 0b0001_0000,
        }
    }
}

/// How the chip is linked to the network. Use [`ConnectionType::PPoE`] when
/// talking to an ADSL modem, otherwise [`ConnectionType::Ethernet`].
#[derive(Copy, Clone, PartialOrd, PartialEq, Debug)]
pub enum ConnectionType {
    Ethernet,
    PPoE,
}

impl ConnectionType {
    /// The bit of the chip's mode register for this setting.
    pub open spec fn bits(self) -> u8 {
        match self {
            ConnectionType::Ethernet => 0b0000_0000,
            ConnectionType::PPoE => 0b0000_1000,
        }
    }

    /// The bit of the chip's mode register for this setting.
    pub fn to_u8(self) -> (value: u8)
        ensures
            value == self.bits(),
    {
        match self {
            ConnectionType::Ethernet => 0b0000_0000,
            ConnectionType::PPoE => 0b0000_1000,
        }
    }
}

/// What the chip does with the answers to its ARP requests.
#[derive(Copy, Clone, PartialOrd, PartialEq, Debug)]
pub enum ArpResponses {
    Cache,
    DropAfterUse,
}

impl ArpResponses {
    /// The bit of the chip's mode register for this setting.
    pub open spec fn bits(self) -> u8 {
        match self {
            ArpResponses::Cache => 0b0000_0000,
            ArpResponses::DropAfterUse => 0b0000_0010,
        }
    }

    /// The bit of the chip's mode register for this setting.
    pub fn to_u8(self) -> (value: u8)
        ensures
            value == self.bits(),
    {
        match self {
            ArpResponses::Cache => 0b0000_0000,
            ArpResponses::DropAfterUse => 0b0000_0010,
        }
    }
}

/// The settings that make up the chip's mode register.
#[derive(Copy, Clone, PartialEq, Debug)]
pub struct Mode {
    pub on_wake_on_lan: OnWakeOnLan,
    pub on_ping_request: OnPingRequest,
    pub connection_type: ConnectionType,
    pub arp_responses: ArpResponses,
}

impl Mode {
    /// The value of the chip's mode register for these settings: the sum of
    /// the bits of the four, which lie at four different places.
    pub open spec fn bits(self) -> u8 {
        (self.on_wake_on_lan.bits() + self.on_ping_request.bits() + self.connection_type.bits()
            + self.arp_responses.bits()) as u8
    }

    /// The value of the chip's mode register for these settings.
    pub fn to_u8(self) -> (value: u8)
        ensures
            value == self.bits(),
    {
        self.on_wake_on_lan.to_u8() + self.on_ping_request.to_u8() + self.connection_type.to_u8()
            + self.arp_responses.to_u8()
    }
}

impl Default for Mode {
    /// No interrupt on wake-on-LAN, pings answered, plain Ethernet, ARP answers
    /// dropped after use.
    fn default() -> (mode: Self)
        ensures
            mode == (Mode {
                on_wake_on_lan: OnWakeOnLan::Ignore,
                on_ping_request: OnPingRequest::Respond,
                connection_type: ConnectionType::Ethernet,
                arp_responses: ArpResponses::DropAfterUse,
            }),
    {
        Self {
            on_wake_on_lan: OnWakeOnLan::Ignore,
            on_ping_request: OnPingRequest::Respond,
            connection_type: ConnectionType::Ethernet,
            arp_responses: ArpResponses::DropAfterUse,
        }
    }
}

} // verus!
