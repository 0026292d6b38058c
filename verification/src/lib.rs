//! Protocol core for reading a P/ECE handheld over USB.
//!
//! Nothing here touches a device. Every operation is a small machine that
//! names the next request to put on the wire and takes the device's answer
//! as plain bytes, so the whole protocol can be checked without hardware.
//!
//! * `command`: the commands of the wire protocol and their encoding.
//! * `memory`: reading a window of flash in chunks of 32 bytes.
//! * `session`: the handshake, and where the file system lies in flash.
//! * `directory`: the directory slots and the listing made of them.
//! * `download`: the cluster chain table and the walk that reads a file.
//! * `screen`: the display descriptor, the bitmap and its drawing as text.
//! * `dump`: the raw image of the flash.
//! * `text`, `wire`, `error`: names, little-endian numbers, failures.

pub mod command;
pub mod directory;
pub mod download;
pub mod dump;
pub mod error;
pub mod memory;
pub mod screen;
pub mod session;
pub mod text;
pub mod wire;
