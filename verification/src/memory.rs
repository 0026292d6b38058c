//! Reading a stretch of flash, 32 bytes at a time.

use vstd::prelude::*;
use crate::command::{flash_reply, Command};
use crate::error::Error;

verus! {

/// Number of addresses the device can name: addresses are 32 bits wide.
pub const ADDRESS_SPACE: u64 = 0x1_0000_0000;

/// The most the device hands out for one read command.
pub const CHUNK_SIZE: u32 = 32;

/// A stretch of flash: `length` bytes starting at `address`.
#[derive(Debug, Clone, Copy, PartialEq, Eq, Structural)]
pub struct Window {
    pub address: u32,
    pub length: u32,
}

impl Window {
    /// The first address past the window.
    pub open spec fn end(self) -> int {
        self.address + self.length
    }

    /// Whether every byte of the window has a 32-bit address.
    pub open spec fn fits(self) -> bool {
        self.end() <= ADDRESS_SPACE
    }

    /// The bytes that `flash` holds under the window.
    pub open spec fn of(self, flash: Seq<u8>) -> Seq<u8> {
        flash.subrange(self.address as int, self.end())
    }

    /// Tells whether the window lies inside the address space.
    pub fn in_range(&self) -> (ok: bool)
        ensures
            ok == self.fits(),
    {
        self.address as u64 + self.length as u64 <= ADDRESS_SPACE
    }
}

/// How many read commands it takes to fetch `length` bytes.
pub open spec fn request_count(length: int) -> int {
    (length + CHUNK_SIZE - 1) / (CHUNK_SIZE as int)
}

/// The `index`-th command of a chunked read of `window`, counting from zero.
pub open spec fn nth_request(window: Window, index: int) -> Command {
    let done = CHUNK_SIZE * index;
    Command::ReadMemory {
        address: (window.address + done) as u32,
        length: if window.length - done < CHUNK_SIZE {
            (window.length - done) as u32
        } else {
            CHUNK_SIZE
        },
    }
}

/// The state of a chunked read, as far as contracts need it.
#[verifier::ext_equal]
pub struct MemoryReadView {
    /// The stretch of flash being fetched.
    pub window: Window,
    /// The bytes received so far, in order.
    pub received: Seq<u8>,
}

impl MemoryReadView {
    /// The state before anything was asked.
    pub open spec fn start(window: Window) -> MemoryReadView {
        MemoryReadView { window, received: Seq::empty() }
    }

    /// What holds of every chunked read: the window fits the address space,
    /// and what was received is a whole number of chunks or the whole window.
    pub open spec fn wf(self) -> bool {
        &&& self.window.fits()
        &&& self.received.len() <= self.window.length
        &&& (self.received.len() % (CHUNK_SIZE as nat) == 0 || self.received.len()
            == self.window.length)
    }

    /// Whether the whole window has been received.
    pub open spec fn is_complete(self) -> bool {
        self.received.len() >= self.window.length
    }

    /// The number of commands answered so far.
    pub open spec fn answered_count(self) -> int {
        request_count(self.received.len() as int)
    }

    /// The command to put on the wire next, or `None` once the window is complete.
    ///
    /// Its address is the start of the window plus the number of bytes already
    /// received; its length is what is still missing, capped at one chunk.
    pub open spec fn pending(self) -> Option<Command> {
        if self.is_complete() {
            None
        } else {
            let missing = self.window.length - self.received.len();
            Some(
                Command::ReadMemory {
                    address: (self.window.address + self.received.len()) as u32,
                    length: if missing < CHUNK_SIZE {
                        missing as u32
                    } else {
                        CHUNK_SIZE
                    },
                },
            )
        }
    }

    /// Whether `reply` answers the pending command in full.
    pub open spec fn accepts(self, reply: Seq<u8>) -> bool {
        self.pending() matches Some(command) && reply.len() == command.reply_length()
    }

    /// The state after `reply` was taken in.
    pub open spec fn answered(self, reply: Seq<u8>) -> MemoryReadView {
        MemoryReadView { window: self.window, received: self.received + reply }
    }
}

/// A read of one window of flash in progress.
///
/// The caller asks `next` for a command, performs it on the device and hands
/// the answer to `accept`, until `next` has nothing more to ask.
pub struct MemoryRead {
    window: Window,
    received: Vec<u8>,
}

impl View for MemoryRead {
    type V = MemoryReadView;

    closed spec fn view(&self) -> MemoryReadView {
        MemoryReadView { window: self.window, received: self.received@ }
    }
}

impl MemoryRead {
    /// Starts a read of `window`. A window that reaches past the last
    /// address is refused.
    pub fn new(window: Window) -> (res: Result<MemoryRead, Error>)
        ensures
            match res {
                Ok(read) => window.fits() && read@ == MemoryReadView::start(window) && read@.wf(),
                Err(e) => !window.fits() && e == Error::AddressOverflow,
            },
    {
        if window.in_range() {
            Ok(MemoryRead { window, received: Vec::new() })
        } else {
            Err(Error::AddressOverflow)
        }
    }

    /// The command to perform next, or `None` when the window is complete.
    pub fn next(&self) -> (command: Option<Command>)
        requires
            self@.wf(),
        ensures
            command == self@.pending(),
    {
        let have: usize = self.received.len();
        if have >= self.window.length as usize {
            None
        } else {
            let missing: u32 = self.window.length - have as u32;
            let length: u32 = if missing < CHUNK_SIZE {
                missing
            } else {
                CHUNK_SIZE
            };
            Some(Command::ReadMemory { address: self.window.address + have as u32, length })
        }
    }

    /// Takes in the device's answer to the pending command.
    ///
    /// An answer of any other length than asked for, or one that nothing
    /// asked for, is a transport error and leaves the read as it was.
    pub fn accept(&mut self, reply: &[u8]) -> (res: Result<(), Error>)
        requires
            old(self)@.wf(),
        ensures
            final(self)@.wf(),
            old(self)@.accepts(reply@) ==> res is Ok && final(self)@ == old(self)@.answered(
                reply@,
            ),
            !old(self)@.accepts(reply@) ==> res == Err::<(), Error>(Error::TransportError)
                && final(self)@ == old(self)@,
    {
        match self.next() {
            Some(Command::ReadMemory { address, length }) => {
                if reply.len() == length as usize {
                    self.received.extend_from_slice(reply);
                    assert(self@ =~= old(self)@.answered(reply@));
                    Ok(())
                } else {
                    Err(Error::TransportError)
                }
            },
            _ => Err(Error::TransportError),
        }
    }

    /// Whether the whole window has been received.
    pub fn is_complete(&self) -> (done: bool)
        ensures
            done == self@.is_complete(),
    {
        self.received.len() >= self.window.length as usize
    }

    /// Hands out the bytes received, in the order of their addresses.
    pub fn finish(self) -> (data: Vec<u8>)
        ensures
            data@ == self@.received,
    {
        self.received
    }
}

/// The state of a read of `window` after `steps` commands, each answered
/// from `flash`.
pub open spec fn read_run(flash: Seq<u8>, window: Window, steps: nat) -> MemoryReadView
    decreases steps,
{
    if steps == 0 {
        MemoryReadView::start(window)
    } else {
        let before = read_run(flash, window, (steps - 1) as nat);
        match before.pending() {
            Some(command) => before.answered(flash_reply(flash, command)),
            None => before,
        }
    }
}

/// After `steps` answers from the flash a read holds the first `32 * steps`
/// bytes of its window, or all of it.
proof fn lemma_read_run_prefix(flash: Seq<u8>, window: Window, steps: nat)
    requires
        window.fits(),
        flash.len() == ADDRESS_SPACE,
    ensures
        read_run(flash, window, steps).wf(),
        read_run(flash, window, steps).window == window,
        read_run(flash, window, steps).received == flash.subrange(
            window.address as int,
            window.address + if CHUNK_SIZE * steps < window.length {
                CHUNK_SIZE * steps
            } else {
                window.length as int
            },
        ),
    decreases steps,
{
    if steps > 0 {
        lemma_read_run_prefix(flash, window, (steps - 1) as nat);
        let before = read_run(flash, window, (steps - 1) as nat);
        let after = read_run(flash, window, steps);
        assert(after.received =~= flash.subrange(
            window.address as int,
            window.address + if CHUNK_SIZE * steps < window.length {
                CHUNK_SIZE * steps
            } else {
                window.length as int
            },
        ));
    } else {
        assert(read_run(flash, window, 0).received =~= flash.subrange(
            window.address as int,
            window.address as int,
        ));
    }
}

/// A chunked read of `length` bytes takes `ceil(length / 32)` commands, the
/// `k`-th of them for the bytes from offset `32 * k` on, and the answers put
/// end to end are the bytes of the window as a single read would give them.
pub proof fn lemma_chunked_read_is_one_read(flash: Seq<u8>, window: Window)
    requires
        window.fits(),
        flash.len() == ADDRESS_SPACE,
    ensures
        forall|k: int|
            0 <= k < request_count(window.length as int) ==> (#[trigger] read_run(
                flash,
                window,
                k as nat,
            )).pending() == Some(nth_request(window, k)),
        read_run(flash, window, request_count(window.length as int) as nat).pending() is None,
        read_run(flash, window, request_count(window.length as int) as nat).received == window.of(
            flash,
        ),
{
    let count = request_count(window.length as int);
    assert forall|k: int| 0 <= k < count implies (#[trigger] read_run(
        flash,
        window,
        k as nat,
    )).pending() == Some(nth_request(window, k)) by {
        lemma_read_run_prefix(flash, window, k as nat);
    }
    lemma_read_run_prefix(flash, window, count as nat);
}

/// Every command of a chunked read asks for at least one byte and at most a
/// chunk, inside the window.
pub proof fn lemma_pending_is_bounded(read: MemoryReadView)
    requires
        read.wf(),
    ensures
        read.pending() matches Some(Command::ReadMemory { address, length }) ==> {
            &&& 1 <= length <= CHUNK_SIZE
            &&& address == read.window.address + read.received.len()
            &&& address + length <= read.window.end()
        },
{
}

/// Taking in an answer keeps a read well formed and counts one more command.
pub proof fn lemma_answer_counts_once(read: MemoryReadView, reply: Seq<u8>)
    requires
        read.wf(),
        read.accepts(reply),
    ensures
        read.answered(reply).wf(),
        read.answered(reply).answered_count() == read.answered_count() + 1,
{
}

/// A read is complete exactly when as many commands were answered as its
/// length takes, and never counts more than that.
pub proof fn lemma_complete_when_all_answered(read: MemoryReadView)
    requires
        read.wf(),
    ensures
        read.answered_count() <= request_count(read.window.length as int),
        read.is_complete() <==> read.answered_count() == request_count(
            read.window.length as int,
        ),
{
}

/// Answers taken from the flash keep a read equal to the front of its
/// window, so that a complete read holds the window itself.
pub proof fn lemma_answers_from_flash(flash: Seq<u8>, read: MemoryReadView, command: Command)
    requires
        read.wf(),
        flash.len() == ADDRESS_SPACE,
        read.pending() == Some(command),
        read.received == flash.subrange(
            read.window.address as int,
            read.window.address + read.received.len(),
        ),
    ensures
        read.accepts(flash_reply(flash, command)),
        read.answered(flash_reply(flash, command)).received == flash.subrange(
            read.window.address as int,
            read.window.address + read.answered(flash_reply(flash, command)).received.len(),
        ),
        read.answered(flash_reply(flash, command)).is_complete() ==> read.answered(
            flash_reply(flash, command),
        ).received == read.window.of(flash),
{
    let after = read.answered(flash_reply(flash, command));
    assert(after.received =~= flash.subrange(
        read.window.address as int,
        read.window.address + after.received.len(),
    ));
}

} // verus!
