//! Files as chains of clusters, and the walk along a chain that reads one.

use vstd::prelude::*;
use vstd::slice::{slice_subrange, slice_to_vec};
use crate::directory::{DirEnt, DIRECTORY_SIZE};
use crate::error::Error;
use crate::memory::{Window, ADDRESS_SPACE};
use crate::wire::{le16, lemma_le16_fits, read_le16};

verus! {

/// Number of entries in the cluster chain table.
pub const CHAIN_ENTRIES: u32 = 496;

/// Size of the cluster chain table: 496 entries of two bytes.
pub const CHAIN_TABLE_SIZE: u32 = 992;

/// Size of one cluster.
pub const CLUSTER_SIZE: u32 = 4096;

/// A chain entry above this value ends the chain.
pub const CHAIN_END: u16 = 0x8000;

/// Where the chain table lies: right behind the directory region.
pub open spec fn chain_table_address(pffs_top: int) -> int {
    pffs_top + DIRECTORY_SIZE
}

/// Where the data of `cluster` lies. Clusters count from 1, and the first
/// lies right behind the chain table.
pub open spec fn cluster_address(pffs_top: int, cluster: int) -> int {
    pffs_top + DIRECTORY_SIZE + CHAIN_TABLE_SIZE + (cluster - 1) * CLUSTER_SIZE
}

/// Whether the data of `cluster` lies inside the address space.
pub open spec fn cluster_in_range(pffs_top: int, cluster: int) -> bool {
    0 <= cluster_address(pffs_top, cluster) && cluster_address(pffs_top, cluster) + CLUSTER_SIZE
        <= ADDRESS_SPACE
}

/// The window over the data of `cluster`.
pub open spec fn cluster_span(pffs_top: u32, cluster: u16) -> Window {
    Window {
        address: cluster_address(pffs_top as int, cluster as int) as u32,
        length: CLUSTER_SIZE,
    }
}

/// The entry of the chain table for `cluster`: the cluster that follows it,
/// or a value above `CHAIN_END`.
pub open spec fn chain_next(table: Seq<u8>, cluster: int) -> int {
    le16(table.subrange(2 * cluster, 2 * cluster + 2))
}

/// Computes the window over the data of `cluster`.
pub fn cluster_window(pffs_top: u32, cluster: u16) -> (res: Result<Window, Error>)
    ensures
        match res {
            Ok(window) => cluster_in_range(pffs_top as int, cluster as int) && window
                == cluster_span(pffs_top, cluster),
            Err(e) => !cluster_in_range(pffs_top as int, cluster as int) && e
                == Error::AddressOverflow,
        },
{
    let size: u64 = CLUSTER_SIZE as u64;
    assert(cluster * size <= 0xffff * 4096) by (nonlinear_arith)
        requires
            cluster <= 0xffff,
            size == 4096,
    ;
    let end: u64 = pffs_top as u64 + DIRECTORY_SIZE as u64 + CHAIN_TABLE_SIZE as u64 + cluster as u64
        * size;
    if end < CLUSTER_SIZE as u64 || end > ADDRESS_SPACE {
        Err(Error::AddressOverflow)
    } else {
        Ok(Window { address: (end - CLUSTER_SIZE as u64) as u32, length: CLUSTER_SIZE })
    }
}

/// The state of a download, as far as contracts need it.
#[verifier::ext_equal]
pub struct DownloadView {
    /// Where the file system begins.
    pub pffs_top: u32,
    /// The raw chain table.
    pub table: Seq<u8>,
    /// The cluster to read next.
    pub cluster: u16,
    /// How many bytes of the file have not been handed out yet.
    pub remaining: u32,
    /// Whether a cluster is still to be read.
    pub active: bool,
}

impl DownloadView {
    /// What holds of every download: the table is whole, and the cluster to
    /// read lies inside the address space.
    pub open spec fn wf(self) -> bool {
        &&& self.table.len() == CHAIN_TABLE_SIZE
        &&& (self.active ==> cluster_in_range(self.pffs_top as int, self.cluster as int))
    }

    /// The window to read next, or `None` once the download is over.
    pub open spec fn pending(self) -> Option<Window> {
        if self.active {
            Some(cluster_span(self.pffs_top, self.cluster))
        } else {
            None
        }
    }

    /// How many bytes of the pending cluster belong to the file.
    pub open spec fn share(self) -> int {
        if self.remaining < CLUSTER_SIZE {
            self.remaining as int
        } else {
            CLUSTER_SIZE as int
        }
    }

    /// What follows the pending cluster: nothing, where the file is complete
    /// or the chain ends; else the next cluster of the chain. A cluster
    /// without an entry in the table, or a next cluster outside the address
    /// space, fails the download.
    pub open spec fn follow(self) -> Result<Option<u16>, Error> {
        if self.remaining - self.share() == 0 {
            Ok(None)
        } else if self.cluster >= CHAIN_ENTRIES {
            Err(Error::ChainOutOfRange)
        } else {
            let next = chain_next(self.table, self.cluster as int);
            if next > CHAIN_END {
                Ok(None)
            } else if !cluster_in_range(self.pffs_top as int, next) {
                Err(Error::AddressOverflow)
            } else {
                Ok(Some(next as u16))
            }
        }
    }

    /// What taking in `data` for the pending cluster gives: the bytes of the
    /// cluster that belong to the file, or the reason the download fails.
    pub open spec fn outcome(self, data: Seq<u8>) -> Result<Seq<u8>, Error> {
        if !self.active || data.len() != CLUSTER_SIZE {
            Err(Error::TransportError)
        } else {
            match self.follow() {
                Ok(_) => Ok(data.take(self.share())),
                Err(e) => Err(e),
            }
        }
    }

    /// The state after `data` was taken in for the pending cluster.
    pub open spec fn after(self, data: Seq<u8>) -> DownloadView {
        if !self.active {
            self
        } else if data.len() != CLUSTER_SIZE {
            DownloadView { active: false, ..self }
        } else {
            match self.follow() {
                Ok(Some(next)) => DownloadView {
                    cluster: next,
                    remaining: (self.remaining - self.share()) as u32,
                    ..self
                },
                Ok(None) => DownloadView {
                    remaining: (self.remaining - self.share()) as u32,
                    active: false,
                    ..self
                },
                Err(_) => DownloadView { active: false, ..self },
            }
        }
    }
}

/// A download in progress: the walk along one file's cluster chain.
///
/// The caller asks `next` for a window, reads it from the device and hands
/// the bytes to `accept`, which gives back the part to write to the file.
pub struct Download {
    pffs_top: u32,
    table: Vec<u8>,
    cluster: u16,
    remaining: u32,
    active: bool,
}

impl View for Download {
    type V = DownloadView;

    closed spec fn view(&self) -> DownloadView {
        DownloadView {
            pffs_top: self.pffs_top,
            table: self.table@,
            cluster: self.cluster,
            remaining: self.remaining,
            active: self.active,
        }
    }
}

impl Download {
    /// Starts the download of the file that `entry` describes.
    ///
    /// `table` is the raw chain table; one of another size than 992 bytes is
    /// a short read. A first cluster outside the address space is refused.
    pub fn start(pffs_top: u32, table: Vec<u8>, entry: &DirEnt) -> (res: Result<Download, Error>)
        ensures
            match res {
                Ok(walk) => {
                    &&& walk@.wf()
                    &&& walk@ == DownloadView {
                        pffs_top,
                        table: table@,
                        cluster: entry.cluster,
                        remaining: entry.len,
                        active: true,
                    }
                },
                Err(e) => if table@.len() != CHAIN_TABLE_SIZE {
                    e == Error::TransportError
                } else {
                    !cluster_in_range(pffs_top as int, entry.cluster as int) && e
                        == Error::AddressOverflow
                },
            },
    {
        if table.len() != CHAIN_TABLE_SIZE as usize {
            return Err(Error::TransportError);
        }
        match cluster_window(pffs_top, entry.cluster) {
            Err(e) => Err(e),
            Ok(_) => Ok(
                Download {
                    pffs_top,
                    table,
                    cluster: entry.cluster,
                    remaining: entry.len,
                    active: true,
                },
            ),
        }
    }

    /// The window to read next, or `None` once the download is over.
    pub fn next(&self) -> (window: Option<Window>)
        requires
            self@.wf(),
        ensures
            window == self@.pending(),
    {
        if self.active {
            match cluster_window(self.pffs_top, self.cluster) {
                Ok(window) => Some(window),
                Err(_) => None,
            }
        } else {
            None
        }
    }

    /// Takes in the bytes read for the pending cluster and gives back those
    /// that belong to the file.
    ///
    /// The download goes on with the next cluster of the chain, and is over
    /// when the file is complete or the chain ends. Bytes of another number
    /// than a cluster, or bytes that nothing asked for, are a transport
    /// error. After an error the download is over.
    pub fn accept(&mut self, data: &[u8]) -> (res: Result<Vec<u8>, Error>)
        requires
            old(self)@.wf(),
        ensures
            final(self)@.wf(),
            final(self)@ == old(self)@.after(data@),
            match res {
                Ok(bytes) => old(self)@.outcome(data@) == Ok::<Seq<u8>, Error>(bytes@),
                Err(e) => old(self)@.outcome(data@) == Err::<Seq<u8>, Error>(e),
            },
    {
        if !self.active {
            return Err(Error::TransportError);
        }
        self.active = false;
        if data.len() != CLUSTER_SIZE as usize {
            return Err(Error::TransportError);
        }
        let share: u32 = if self.remaining < CLUSTER_SIZE {
            self.remaining
        } else {
            CLUSTER_SIZE
        };
        let left: u32 = self.remaining - share;
        if left != 0 {
            if self.cluster as u32 >= CHAIN_ENTRIES {
                return Err(Error::ChainOutOfRange);
            }
            proof {
                lemma_le16_fits(self.table@.subrange(2 * self.cluster, 2 * self.cluster + 2));
            }
            let next: u16 = read_le16(self.table.as_slice(), 2 * self.cluster as usize);
            if next <= CHAIN_END {
                match cluster_window(self.pffs_top, next) {
                    Err(e) => {
                        return Err(e);
                    },
                    Ok(_) => {
                        self.cluster = next;
                        self.active = true;
                    },
                }
            }
        }
        self.remaining = left;
        let bytes = slice_to_vec(slice_subrange(data, 0, share as usize));
        assert(bytes@ =~= data@.take(share as int));
        Ok(bytes)
    }

    /// How many bytes of the file have not been handed out yet.
    pub fn remaining(&self) -> (left: u32)
        ensures
            left == self@.remaining,
    {
        self.remaining
    }
}

/// What a download in state `walk` hands out from here on when every
/// cluster it asks for is read from `flash`: the file, as far as it is not
/// yet handed out.
pub open spec fn download_run(flash: Seq<u8>, walk: DownloadView) -> Result<Seq<u8>, Error>
    decreases walk.remaining, (if walk.active { 1int } else { 0int }),
{
    if !walk.active {
        Ok(Seq::empty())
    } else {
        let data = cluster_span(walk.pffs_top, walk.cluster).of(flash);
        match walk.outcome(data) {
            Err(e) => Err(e),
            Ok(bytes) => match download_run(flash, walk.after(data)) {
                Ok(rest) => Ok(bytes + rest),
                Err(e) => Err(e),
            },
        }
    }
}

/// How many clusters a download in state `walk` reads from here on, each
/// read from `flash`.
pub open spec fn download_reads(flash: Seq<u8>, walk: DownloadView) -> int
    decreases walk.remaining, (if walk.active { 1int } else { 0int }),
{
    if !walk.active {
        0
    } else {
        let data = cluster_span(walk.pffs_top, walk.cluster).of(flash);
        match walk.outcome(data) {
            Err(e) => 1,
            Ok(bytes) => 1 + download_reads(flash, walk.after(data)),
        }
    }
}

/// The number of clusters that hold `length` bytes; an empty file still has
/// its first cluster read.
pub open spec fn clusters_for(length: int) -> int {
    if length <= CLUSTER_SIZE {
        1
    } else {
        (length + CLUSTER_SIZE - 1) / (CLUSTER_SIZE as int)
    }
}

/// A download hands out no more bytes than the file is long, and reads no
/// more clusters than that many bytes take, whatever the chain table says.
pub proof fn lemma_download_is_bounded(flash: Seq<u8>, walk: DownloadView)
    requires
        walk.wf(),
    ensures
        download_run(flash, walk) matches Ok(bytes) ==> bytes.len() <= walk.remaining,
        walk.active ==> 1 <= download_reads(flash, walk) <= clusters_for(walk.remaining as int),
    decreases walk.remaining, (if walk.active { 1int } else { 0int }),
{
    if walk.active {
        let data = cluster_span(walk.pffs_top, walk.cluster).of(flash);
        if walk.outcome(data) is Ok {
            let then = walk.after(data);
            lemma_download_is_bounded(flash, then);
            if then.active {
                assert(then.remaining == walk.remaining - CLUSTER_SIZE);
                assert(clusters_for(then.remaining as int) + 1 == clusters_for(
                    walk.remaining as int,
                ));
            } else {
                assert(download_reads(flash, then) == 0);
            }
        }
    }
}

/// A file of at most one cluster is read with a single cluster read, and is
/// the front of that cluster: the chain table is not even looked at.
pub proof fn lemma_short_file_is_one_cluster(flash: Seq<u8>, walk: DownloadView)
    requires
        walk.wf(),
        walk.active,
        walk.remaining <= CLUSTER_SIZE,
        flash.len() == ADDRESS_SPACE,
    ensures
        download_run(flash, walk) == Ok::<Seq<u8>, Error>(
            cluster_span(walk.pffs_top, walk.cluster).of(flash).take(walk.remaining as int),
        ),
        download_reads(flash, walk) == 1,
{
    let data = cluster_span(walk.pffs_top, walk.cluster).of(flash);
    let bytes = data.take(walk.remaining as int);
    assert(walk.outcome(data) == Ok::<Seq<u8>, Error>(bytes));
    let then = walk.after(data);
    assert(!then.active);
    assert(download_run(flash, then) == Ok::<Seq<u8>, Error>(Seq::empty()));
    assert(download_reads(flash, then) == 0);
    assert(bytes + Seq::<u8>::empty() =~= bytes);
}

/// A file of more than one and at most two clusters, whose first cluster
/// has a next one in the table, is the whole first cluster followed by the
/// front of the next, and no third cluster is read.
pub proof fn lemma_two_cluster_file(flash: Seq<u8>, walk: DownloadView)
    requires
        walk.wf(),
        walk.active,
        CLUSTER_SIZE < walk.remaining <= 2 * CLUSTER_SIZE,
        walk.cluster < CHAIN_ENTRIES,
        chain_next(walk.table, walk.cluster as int) <= CHAIN_END,
        cluster_in_range(walk.pffs_top as int, chain_next(walk.table, walk.cluster as int)),
        flash.len() == ADDRESS_SPACE,
    ensures
        download_run(flash, walk) == Ok::<Seq<u8>, Error>(
            cluster_span(walk.pffs_top, walk.cluster).of(flash) + cluster_span(
                walk.pffs_top,
                chain_next(walk.table, walk.cluster as int) as u16,
            ).of(flash).take(walk.remaining - CLUSTER_SIZE),
        ),
        download_reads(flash, walk) == 2,
{
    let first = cluster_span(walk.pffs_top, walk.cluster).of(flash);
    lemma_le16_fits(walk.table.subrange(2 * walk.cluster, 2 * walk.cluster + 2));
    assert(walk.outcome(first) == Ok::<Seq<u8>, Error>(first.take(CLUSTER_SIZE as int)));
    assert(first.take(CLUSTER_SIZE as int) =~= first);
    let then = walk.after(first);
    lemma_short_file_is_one_cluster(flash, then);
}

} // verus!
