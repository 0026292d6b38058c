//! A session with one device: the handshake, and where its file system lies.

use vstd::prelude::*;
use crate::command::VERSION_SIZE;
use crate::directory::{
    find, list, listing, position_of, slots_readable, DirEnt, DIRECTORY_SIZE, LISTED_SLOTS,
    LISTING_SIZE, SLOT_SIZE,
};
use crate::download::{
    chain_table_address, cluster_in_range, Download, DownloadView, CHAIN_TABLE_SIZE,
};
use crate::error::Error;
use crate::memory::Window;
use crate::wire::{le32, lemma_le32_fits, read_le32};

verus! {

/// The start of the file system that a version block names, in bytes 24 to 27.
pub open spec fn version_pffs_top(version: Seq<u8>) -> int {
    le32(version.subrange(24, 28))
}

/// The part of the directory region that a listing reads: slots 1 to 95.
pub open spec fn directory_span(pffs_top: u32) -> Window {
    Window { address: (pffs_top + SLOT_SIZE) as u32, length: LISTING_SIZE }
}

/// The window over the cluster chain table.
pub open spec fn chain_table_span(pffs_top: u32) -> Window {
    Window { address: chain_table_address(pffs_top as int) as u32, length: CHAIN_TABLE_SIZE }
}

/// How the download of the file called `name` begins, given the chain table
/// and the listed part of the directory as read from the device: with the
/// first cluster and the length of the first entry of that name, or not at
/// all.
pub open spec fn download_start(
    pffs_top: u32,
    table: Seq<u8>,
    region: Seq<u8>,
    name: Seq<char>,
) -> Result<DownloadView, Error> {
    if table.len() != CHAIN_TABLE_SIZE || region.len() != LISTING_SIZE {
        Err(Error::TransportError)
    } else if !slots_readable(region, LISTED_SLOTS as int) {
        Err(Error::Utf8DecodeFailure)
    } else {
        let entries = listing(region, LISTED_SLOTS as int);
        let place = position_of(entries, name);
        if place >= entries.len() {
            Err(Error::FileNotFound)
        } else if !cluster_in_range(pffs_top as int, entries[place].cluster as int) {
            Err(Error::AddressOverflow)
        } else {
            Ok(
                DownloadView {
                    pffs_top,
                    table,
                    cluster: entries[place].cluster,
                    remaining: entries[place].len,
                    active: true,
                },
            )
        }
    }
}

/// A session with a device whose handshake is done.
///
/// All it holds is where the file system begins. That is learned once, from
/// the version block, and never changes.
#[derive(Debug, Clone, Copy)]
pub struct Piece {
    pffs_top: u32,
}

impl Piece {
    /// Where the file system begins.
    pub closed spec fn top(&self) -> u32 {
        self.pffs_top
    }

    /// Opens the session from the device's answer to `Command::Identify`.
    /// Anything but 32 bytes is a short read.
    pub fn new(version: &[u8]) -> (res: Result<Piece, Error>)
        ensures
            match res {
                Ok(piece) => version@.len() == VERSION_SIZE && piece.top() == version_pffs_top(
                    version@,
                ),
                Err(e) => version@.len() != VERSION_SIZE && e == Error::TransportError,
            },
    {
        if version.len() != VERSION_SIZE as usize {
            return Err(Error::TransportError);
        }
        proof {
            lemma_le32_fits(version@.subrange(24, 28));
        }
        Ok(Piece { pffs_top: read_le32(version, 24) })
    }

    /// Where the file system begins.
    pub fn pffs_top(&self) -> (address: u32)
        ensures
            address == self.top(),
    {
        self.pffs_top
    }

    /// The window to read for a listing: 95 slots from the second slot on.
    pub fn directory_window(&self) -> (res: Result<Window, Error>)
        ensures
            match res {
                Ok(window) => window == directory_span(self.top()) && window.fits()
                    && window.address == self.top() + SLOT_SIZE,
                Err(e) => self.top() + DIRECTORY_SIZE > crate::memory::ADDRESS_SPACE && e
                    == Error::AddressOverflow,
            },
    {
        let address: u64 = self.pffs_top as u64 + SLOT_SIZE as u64;
        if address + LISTING_SIZE as u64 > crate::memory::ADDRESS_SPACE {
            Err(Error::AddressOverflow)
        } else {
            Ok(Window { address: address as u32, length: LISTING_SIZE })
        }
    }

    /// The window to read for the cluster chain table.
    pub fn chain_table_window(&self) -> (res: Result<Window, Error>)
        ensures
            match res {
                Ok(window) => window == chain_table_span(self.top()) && window.fits()
                    && window.address == self.top() + DIRECTORY_SIZE,
                Err(e) => self.top() + DIRECTORY_SIZE + CHAIN_TABLE_SIZE
                    > crate::memory::ADDRESS_SPACE && e == Error::AddressOverflow,
            },
    {
        let address: u64 = self.pffs_top as u64 + DIRECTORY_SIZE as u64;
        if address + CHAIN_TABLE_SIZE as u64 > crate::memory::ADDRESS_SPACE {
            Err(Error::AddressOverflow)
        } else {
            Ok(Window { address: address as u32, length: CHAIN_TABLE_SIZE })
        }
    }

    /// Lists the files, from the bytes read at `directory_window`.
    pub fn ls(&self, region: &[u8]) -> (res: Result<Vec<DirEnt>, Error>)
        ensures
            region@.len() != LISTING_SIZE ==> res == Err::<Vec<DirEnt>, Error>(
                Error::TransportError,
            ),
            region@.len() == LISTING_SIZE ==> match res {
                Ok(entries) => slots_readable(region@, LISTED_SLOTS as int)
                    && entries.deep_view() == listing(region@, LISTED_SLOTS as int),
                Err(e) => !slots_readable(region@, LISTED_SLOTS as int) && e
                    == Error::Utf8DecodeFailure,
            },
    {
        list(region)
    }

    /// Begins the download of the file called `name`.
    ///
    /// `table` holds the bytes read at `chain_table_window`, `region` those
    /// read at `directory_window`. The file is the first entry whose name is
    /// exactly `name`. Where there is none the download fails before it has
    /// begun, so that no cluster is ever asked for.
    pub fn download(&self, table: Vec<u8>, region: &[u8], name: &str) -> (res: Result<
        Download,
        Error,
    >)
        ensures
            match res {
                Ok(walk) => walk@.wf() && download_start(self.top(), table@, region@, name@) == Ok::<
                    DownloadView,
                    Error,
                >(walk@),
                Err(e) => download_start(self.top(), table@, region@, name@) == Err::<
                    DownloadView,
                    Error,
                >(e),
            },
    {
        if table.len() != CHAIN_TABLE_SIZE as usize {
            return Err(Error::TransportError);
        }
        match list(region) {
            Err(e) => Err(e),
            Ok(entries) => match find(&entries, name) {
                None => Err(Error::FileNotFound),
                Some(place) => {
                    assert(entries.deep_view()[place as int] == entries@[place as int]@);
                    Download::start(self.pffs_top, table, &entries[place])
                },
            },
        }
    }
}

/// Looking for a name that no listed entry bears fails with
/// `FileNotFound`: no download comes into being, so no cluster is read.
pub proof fn lemma_missing_file_is_not_found(
    pffs_top: u32,
    table: Seq<u8>,
    region: Seq<u8>,
    name: Seq<char>,
)
    requires
        table.len() == CHAIN_TABLE_SIZE,
        region.len() == LISTING_SIZE,
        slots_readable(region, LISTED_SLOTS as int),
        forall|k: int|
            0 <= k < listing(region, LISTED_SLOTS as int).len() ==> (#[trigger] listing(
                region,
                LISTED_SLOTS as int,
            )[k]).name != name,
    ensures
        download_start(pffs_top, table, region, name) == Err::<DownloadView, Error>(
            Error::FileNotFound,
        ),
{
    let entries = listing(region, LISTED_SLOTS as int);
    crate::directory::lemma_position_of(entries, name, entries.len() as int);
}

/// Conversely, a download fails with `FileNotFound` only where no listed
/// entry bears the name.
pub proof fn lemma_not_found_means_missing(
    pffs_top: u32,
    table: Seq<u8>,
    region: Seq<u8>,
    name: Seq<char>,
)
    requires
        download_start(pffs_top, table, region, name) == Err::<DownloadView, Error>(
            Error::FileNotFound,
        ),
    ensures
        forall|k: int|
            0 <= k < listing(region, LISTED_SLOTS as int).len() ==> (#[trigger] listing(
                region,
                LISTED_SLOTS as int,
            )[k]).name != name,
{
    crate::directory::lemma_position_of_is_first(listing(region, LISTED_SLOTS as int), name);
}

} // verus!
