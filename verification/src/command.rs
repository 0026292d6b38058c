//! The commands the device understands, as they go over the bulk endpoints.

use vstd::prelude::*;
use crate::wire::{le32_bytes, push_le32};

verus! {

/// USB vendor id of the device.
pub const VENDOR_ID: u16 = 0x0e19;

/// USB product id of the device.
pub const PRODUCT_ID: u16 = 0x1000;

/// The one interface that carries all transfers.
pub const INTERFACE: u8 = 0;

/// Bulk endpoint that commands are written to.
pub const ENDPOINT_OUT: u8 = 0x02;

/// Bulk endpoint that answers are read from.
pub const ENDPOINT_IN: u8 = 0x82;

/// Every single transfer is given up after this many milliseconds.
pub const TIMEOUT_MILLIS: u64 = 1000;

/// Length of the answer to `Command::Identify`.
pub const VERSION_SIZE: u32 = 32;

/// Length of the answer to `Command::QueryDisplay`.
pub const DESCRIPTOR_SIZE: u32 = 12;

/// One command of the wire protocol.
#[derive(Debug, Clone, Copy, PartialEq, Eq, Structural)]
pub enum Command {
    /// Ask for the 32-byte version block.
    Identify,
    /// Ask for `length` bytes of flash starting at `address`.
    ReadMemory { address: u32, length: u32 },
    /// Freeze the device while its memory is sampled.
    Pause,
    /// Let the device run again.
    Resume,
    /// Ask for the 12-byte display descriptor.
    QueryDisplay,
}

impl Command {
    /// The bytes written to the device for this command.
    pub open spec fn wire(self) -> Seq<u8> {
        match self {
            Command::Identify => seq![0x00u8, 0x20u8],
            Command::ReadMemory { address, length } => seq![0x02u8] + le32_bytes(address as int)
                + le32_bytes(length as int),
            Command::Pause => seq![0x10u8, 0x01u8],
            Command::Resume => seq![0x10u8, 0x00u8],
            Command::QueryDisplay => seq![0x11u8],
        }
    }

    /// How many bytes the device sends back; zero where it sends nothing.
    pub open spec fn reply_length(self) -> nat {
        match self {
            Command::Identify => VERSION_SIZE as nat,
            Command::ReadMemory { address, length } => length as nat,
            Command::Pause => 0,
            Command::Resume => 0,
            Command::QueryDisplay => DESCRIPTOR_SIZE as nat,
        }
    }

    /// Spells the command out for the wire.
    pub fn encode(&self) -> (bytes: Vec<u8>)
        ensures
            bytes@ == self.wire(),
    {
        let mut bytes: Vec<u8> = Vec::new();
        match *self {
            Command::Identify => {
                bytes.push(0x00);
                bytes.push(0x20);
            },
            Command::ReadMemory { address, length } => {
                bytes.push(0x02);
                push_le32(&mut bytes, address);
                push_le32(&mut bytes, length);
            },
            Command::Pause => {
                bytes.push(0x10);
                bytes.push(0x01);
            },
            Command::Resume => {
                bytes.push(0x10);
                bytes.push(0x00);
            },
            Command::QueryDisplay => {
                bytes.push(0x11);
            },
        }
        assert(bytes@ =~= self.wire());
        bytes
    }

    /// The number of bytes to read back after writing the command.
    pub fn reply_len(&self) -> (length: u32)
        ensures
            length == self.reply_length(),
    {
        match *self {
            Command::Identify => VERSION_SIZE,
            Command::ReadMemory { address, length } => length,
            Command::Pause => 0,
            Command::Resume => 0,
            Command::QueryDisplay => DESCRIPTOR_SIZE,
        }
    }
}

/// What a device whose flash holds `flash` sends back for `command`, as far as
/// the answer is a function of the flash alone.
pub open spec fn flash_reply(flash: Seq<u8>, command: Command) -> Seq<u8> {
    match command {
        Command::ReadMemory { address, length } => flash.subrange(
            address as int,
            address + length,
        ),
        _ => Seq::empty(),
    }
}

} // verus!
