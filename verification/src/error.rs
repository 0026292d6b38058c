use vstd::prelude::*;

verus! {

/// Why an operation on the device was given up.
#[derive(Debug, Clone, Copy, PartialEq, Eq, Structural)]
pub enum Error {
    /// An answer from the device did not have the expected number of bytes.
    TransportError,
    /// The display descriptor does not describe a 128 x 88 screen.
    ProtocolAssertionFailure,
    /// The directory holds no entry with the wanted name.
    FileNotFound,
    /// The name field of a directory slot is not UTF-8.
    Utf8DecodeFailure,
    /// A region to read does not lie inside the 32-bit flash address space.
    AddressOverflow,
    /// A cluster index points outside the cluster chain table.
    ChainOutOfRange,
}

} // verus!
