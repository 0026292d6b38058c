//! The display: its descriptor, its bitmap in flash, and the text drawn from it.

use vstd::prelude::*;
use vstd::string::StringExecFns;
use crate::command::{Command, DESCRIPTOR_SIZE};
use crate::error::Error;
use crate::memory::{Window, ADDRESS_SPACE};
use crate::wire::{le32, lemma_le32_fits, read_le32};

verus! {

/// Pixels in one row of the screen, one byte each in the bitmap.
pub const SCREEN_WIDTH: u32 = 128;

/// Rows of the screen.
pub const SCREEN_HEIGHT: u32 = 88;

/// The character drawn for one pixel: the brighter the pixel, the lighter
/// the shade. A value that is no brightness is drawn as `X`.
pub open spec fn glyph_of(pixel: u8) -> char {
    if pixel == 3 {
        ' '
    } else if pixel == 2 {
        '\u{2591}'
    } else if pixel == 1 {
        '\u{2592}'
    } else if pixel == 0 {
        '\u{2593}'
    } else {
        'X'
    }
}

/// The line of text drawn for one row of pixels.
pub open spec fn row_text(row: Seq<u8>) -> Seq<char> {
    Seq::new(row.len(), |i: int| glyph_of(row[i]))
}

/// The text drawn for one pixel.
pub fn glyph(pixel: u8) -> (text: &'static str)
    ensures
        text@ == seq![glyph_of(pixel)],
{
    proof {
        reveal_strlit(" ");
        reveal_strlit("\u{2591}");
        reveal_strlit("\u{2592}");
        reveal_strlit("\u{2593}");
        reveal_strlit("X");
    }
    let text = match pixel {
        3 => " ",
        2 => "\u{2591}",
        1 => "\u{2592}",
        0 => "\u{2593}",
        _ => "X",
    };
    assert(text@ =~= seq![glyph_of(pixel)]);
    text
}

/// Draws one row of pixels as a line of text.
pub fn render_row(row: &[u8]) -> (line: String)
    ensures
        line@ == row_text(row@),
{
    let mut line: String = String::new();
    let mut index: usize = 0;
    while index < row.len()
        invariant
            index <= row@.len(),
            line@ == row_text(row@.take(index as int)),
        decreases row@.len() - index,
    {
        line.append(glyph(row[index]));
        index += 1;
        assert(line@ =~= row_text(row@.take(index as int)));
    }
    assert(row@.take(index as int) =~= row@);
    line
}

/// Whether a display descriptor names the one screen this library knows:
/// width 128 in byte 2, height 88 in byte 4.
pub open spec fn descriptor_is_expected(descriptor: Seq<u8>) -> bool {
    descriptor[2] == SCREEN_WIDTH && descriptor[4] == SCREEN_HEIGHT
}

/// The address of the bitmap that a descriptor names, in bytes 8 to 11.
pub open spec fn descriptor_base(descriptor: Seq<u8>) -> int {
    le32(descriptor.subrange(8, 12))
}

/// Reads the display descriptor and gives the address of the bitmap.
///
/// Anything but 12 bytes is a short read. A descriptor of another width or
/// height is refused.
pub fn parse_descriptor(descriptor: &[u8]) -> (res: Result<u32, Error>)
    ensures
        descriptor@.len() != DESCRIPTOR_SIZE ==> res == Err::<u32, Error>(Error::TransportError),
        descriptor@.len() == DESCRIPTOR_SIZE ==> match res {
            Ok(base) => descriptor_is_expected(descriptor@) && base == descriptor_base(
                descriptor@,
            ),
            Err(e) => !descriptor_is_expected(descriptor@) && e
                == Error::ProtocolAssertionFailure,
        },
{
    if descriptor.len() != DESCRIPTOR_SIZE as usize {
        return Err(Error::TransportError);
    }
    if descriptor[2] as u32 != SCREEN_WIDTH || descriptor[4] as u32 != SCREEN_HEIGHT {
        return Err(Error::ProtocolAssertionFailure);
    }
    proof {
        lemma_le32_fits(descriptor@.subrange(8, 12));
    }
    Ok(read_le32(descriptor, 8))
}

/// Where row `row` of the bitmap at `base` lies.
pub open spec fn row_address(base: int, row: int) -> int {
    base + row * SCREEN_WIDTH
}

/// Whether row `row` of the bitmap at `base` lies inside the address space.
pub open spec fn row_in_range(base: int, row: int) -> bool {
    row_address(base, row) + SCREEN_WIDTH <= ADDRESS_SPACE
}

/// The window over row `row` of the bitmap at `base`.
pub open spec fn row_span(base: u32, row: u32) -> Window {
    Window { address: row_address(base as int, row as int) as u32, length: SCREEN_WIDTH }
}

/// Computes the window over one row of the bitmap.
pub fn row_window(base: u32, row: u32) -> (res: Result<Window, Error>)
    ensures
        match res {
            Ok(window) => row_in_range(base as int, row as int) && window == row_span(base, row),
            Err(e) => !row_in_range(base as int, row as int) && e == Error::AddressOverflow,
        },
{
    let width: u64 = SCREEN_WIDTH as u64;
    assert(row * width <= 0xffff_ffff * 128) by (nonlinear_arith)
        requires
            row <= 0xffff_ffff,
            width == 128,
    ;
    let address: u64 = base as u64 + row as u64 * width;
    if address + width > ADDRESS_SPACE {
        Err(Error::AddressOverflow)
    } else {
        Ok(Window { address: address as u32, length: SCREEN_WIDTH })
    }
}

/// What a capture asks its caller to do next.
#[derive(Debug, Clone, Copy, PartialEq, Eq, Structural)]
pub enum Action {
    /// Perform this command and hand back what the device answers: nothing,
    /// for a command that has no answer.
    Send(Command),
    /// Read this window of flash and hand back its bytes.
    Read(Window),
}

/// How far a capture has come.
#[derive(Debug, Clone, Copy, PartialEq, Eq, Structural)]
pub enum Stage {
    /// The device is to be paused.
    Pause,
    /// The display descriptor is to be asked for.
    Query,
    /// A row of the bitmap is to be read.
    Rows,
    /// The device is to be set running again.
    Resume,
    /// Nothing is left to do.
    Done,
}

/// The state of a capture, as far as contracts need it.
pub struct CaptureView {
    pub stage: Stage,
    /// Address of the bitmap, once the descriptor is read.
    pub base: u32,
    /// The row to read next.
    pub row: u32,
    /// Why the capture failed, if it did.
    pub failure: Option<Error>,
}

impl CaptureView {
    /// The state before anything was done.
    pub open spec fn start() -> CaptureView {
        CaptureView { stage: Stage::Pause, base: 0, row: 0, failure: None }
    }

    /// What holds of every capture: a failed one only has the device to
    /// resume, and a row to read is a row of the screen inside the address
    /// space.
    pub open spec fn wf(self) -> bool {
        &&& self.failure is Some ==> self.stage == Stage::Resume || self.stage == Stage::Done
        &&& self.stage == Stage::Rows ==> self.row < SCREEN_HEIGHT && row_in_range(
            self.base as int,
            self.row as int,
        )
    }

    /// What the caller is to do next, or `None` when the capture is over.
    pub open spec fn pending(self) -> Option<Action> {
        match self.stage {
            Stage::Pause => Some(Action::Send(Command::Pause)),
            Stage::Query => Some(Action::Send(Command::QueryDisplay)),
            Stage::Rows => Some(Action::Read(row_span(self.base, self.row))),
            Stage::Resume => Some(Action::Send(Command::Resume)),
            Stage::Done => None,
        }
    }

    /// The state after the pending action failed with `error`, or its answer
    /// was refused with it: the device is still resumed, unless resuming is
    /// what failed. The first failure is the one that is kept.
    pub open spec fn failed(self, error: Error) -> CaptureView {
        match self.stage {
            Stage::Done => self,
            Stage::Resume => CaptureView {
                stage: Stage::Done,
                failure: if self.failure is Some {
                    self.failure
                } else {
                    Some(error)
                },
                ..self
            },
            _ => CaptureView { stage: Stage::Resume, failure: Some(error), ..self },
        }
    }

    /// The state in which row `row` of the bitmap at `base` comes next: past
    /// the last row the device is resumed, and a row outside the address
    /// space fails the capture.
    pub open spec fn at_row(base: u32, row: int) -> CaptureView {
        if row >= SCREEN_HEIGHT {
            CaptureView { stage: Stage::Resume, base, row: SCREEN_HEIGHT, failure: None }
        } else if !row_in_range(base as int, row) {
            CaptureView {
                stage: Stage::Resume,
                base,
                row: row as u32,
                failure: Some(Error::AddressOverflow),
            }
        } else {
            CaptureView { stage: Stage::Rows, base, row: row as u32, failure: None }
        }
    }

    /// The state after the device's answer to the pending action was taken in.
    pub open spec fn after(self, reply: Seq<u8>) -> CaptureView {
        match self.stage {
            Stage::Pause => if reply.len() == 0 {
                CaptureView { stage: Stage::Query, ..self }
            } else {
                self.failed(Error::TransportError)
            },
            Stage::Query => if reply.len() != DESCRIPTOR_SIZE {
                self.failed(Error::TransportError)
            } else if !descriptor_is_expected(reply) {
                self.failed(Error::ProtocolAssertionFailure)
            } else {
                CaptureView::at_row(descriptor_base(reply) as u32, 0)
            },
            Stage::Rows => if reply.len() != SCREEN_WIDTH {
                self.failed(Error::TransportError)
            } else {
                CaptureView::at_row(self.base, self.row + 1)
            },
            Stage::Resume => if reply.len() == 0 {
                CaptureView { stage: Stage::Done, ..self }
            } else {
                self.failed(Error::TransportError)
            },
            Stage::Done => self,
        }
    }

    /// The line of text that taking in `reply` gives: one for each row read.
    pub open spec fn line(self, reply: Seq<u8>) -> Option<Seq<char>> {
        if self.stage == Stage::Rows && reply.len() == SCREEN_WIDTH {
            Some(row_text(reply))
        } else {
            None
        }
    }
}

/// A capture of the screen in progress.
///
/// The caller asks `next` what to do, does it, and hands the device's
/// answer to `accept`, or calls `fail` where the transfer itself failed.
/// The device is paused first and resumed last, whatever happens between.
pub struct Capture {
    stage: Stage,
    base: u32,
    row: u32,
    failure: Option<Error>,
}

impl View for Capture {
    type V = CaptureView;

    closed spec fn view(&self) -> CaptureView {
        CaptureView { stage: self.stage, base: self.base, row: self.row, failure: self.failure }
    }
}

impl Capture {
    /// A capture that has not begun.
    pub fn new() -> (capture: Capture)
        ensures
            capture@ == CaptureView::start(),
            capture@.wf(),
    {
        Capture { stage: Stage::Pause, base: 0, row: 0, failure: None }
    }

    /// What to do next, or `None` when the capture is over.
    pub fn next(&self) -> (action: Option<Action>)
        requires
            self@.wf(),
        ensures
            action == self@.pending(),
    {
        match self.stage {
            Stage::Pause => Some(Action::Send(Command::Pause)),
            Stage::Query => Some(Action::Send(Command::QueryDisplay)),
            Stage::Rows => match row_window(self.base, self.row) {
                Ok(window) => Some(Action::Read(window)),
                Err(_) => None,
            },
            Stage::Resume => Some(Action::Send(Command::Resume)),
            Stage::Done => None,
        }
    }

    /// Records that the pending action could not be performed.
    pub fn fail(&mut self)
        requires
            old(self)@.wf(),
        ensures
            final(self)@.wf(),
            final(self)@ == old(self)@.failed(Error::TransportError),
    {
        self.give_up(Error::TransportError);
    }

    /// Why the capture failed, or `None` if it has not.
    pub fn failure(&self) -> (failure: Option<Error>)
        ensures
            failure == self@.failure,
    {
        self.failure
    }

    /// Takes in the device's answer to the pending action, and gives back
    /// the line of text for a row of the bitmap.
    ///
    /// An answer of the wrong length counts as a failed transfer. A
    /// descriptor of another screen than 128 by 88 fails the capture before
    /// any row is read.
    pub fn accept(&mut self, reply: &[u8]) -> (line: Option<String>)
        requires
            old(self)@.wf(),
        ensures
            final(self)@.wf(),
            final(self)@ == old(self)@.after(reply@),
            match line {
                Some(text) => old(self)@.line(reply@) == Some(text@),
                None => old(self)@.line(reply@) is None,
            },
    {
        match self.stage {
            Stage::Pause => {
                if reply.len() == 0 {
                    self.stage = Stage::Query;
                } else {
                    self.give_up(Error::TransportError);
                }
                None
            },
            Stage::Query => {
                match parse_descriptor(reply) {
                    Ok(base) => {
                        proof {
                            lemma_le32_fits(reply@.subrange(8, 12));
                        }
                        self.enter_row(base, 0);
                    },
                    Err(e) => {
                        self.give_up(e);
                    },
                }
                None
            },
            Stage::Rows => {
                if reply.len() == SCREEN_WIDTH as usize {
                    let line = render_row(reply);
                    let base: u32 = self.base;
                    let row: u32 = self.row + 1;
                    self.enter_row(base, row);
                    Some(line)
                } else {
                    self.give_up(Error::TransportError);
                    None
                }
            },
            Stage::Resume => {
                if reply.len() == 0 {
                    self.stage = Stage::Done;
                } else {
                    self.give_up(Error::TransportError);
                }
                None
            },
            Stage::Done => None,
        }
    }

    fn give_up(&mut self, error: Error)
        ensures
            final(self)@ == old(self)@.failed(error),
    {
        match self.stage {
            Stage::Done => {},
            Stage::Resume => {
                self.stage = Stage::Done;
                if self.failure.is_none() {
                    self.failure = Some(error);
                }
            },
            _ => {
                self.stage = Stage::Resume;
                self.failure = Some(error);
            },
        }
    }

    fn enter_row(&mut self, base: u32, row: u32)
        requires
            row <= SCREEN_HEIGHT,
        ensures
            final(self)@ == CaptureView::at_row(base, row as int),
    {
        self.base = base;
        self.row = row;
        self.failure = None;
        if row >= SCREEN_HEIGHT {
            self.stage = Stage::Resume;
        } else {
            match row_window(base, row) {
                Ok(_) => {
                    self.stage = Stage::Rows;
                },
                Err(e) => {
                    self.stage = Stage::Resume;
                    self.failure = Some(e);
                },
            }
        }
    }
}

/// A capture is over only after the device was told to resume: the one
/// stage that leads to the end is the one that sends the resume command,
/// whether the step before succeeded or failed.
pub proof fn lemma_capture_ends_with_resume(capture: CaptureView, reply: Seq<u8>, error: Error)
    requires
        capture.wf(),
        capture.stage != Stage::Done,
    ensures
        capture.after(reply).stage == Stage::Done ==> capture.pending() == Some(
            Action::Send(Command::Resume),
        ),
        capture.failed(error).stage == Stage::Done ==> capture.pending() == Some(
            Action::Send(Command::Resume),
        ),
        capture.stage != Stage::Resume ==> capture.failed(error).pending() == Some(
            Action::Send(Command::Resume),
        ),
{
}

/// A descriptor of the expected screen leads to the first row of the bitmap
/// it names; any other fails the capture at once, and a failed capture asks
/// for no row: all it does is resume the device.
pub proof fn lemma_capture_checks_the_screen_first(capture: CaptureView, descriptor: Seq<u8>)
    requires
        capture.wf(),
        capture.stage == Stage::Query,
        descriptor.len() == DESCRIPTOR_SIZE,
    ensures
        descriptor_is_expected(descriptor) && row_in_range(descriptor_base(descriptor), 0)
            ==> capture.after(descriptor).pending() == Some(
            Action::Read(row_span(descriptor_base(descriptor) as u32, 0)),
        ),
        !descriptor_is_expected(descriptor) ==> {
            &&& capture.after(descriptor).failure == Some(Error::ProtocolAssertionFailure)
            &&& capture.after(descriptor).pending() == Some(Action::Send(Command::Resume))
        },
{
    lemma_le32_fits(descriptor.subrange(8, 12));
}

/// Once a capture has failed it stays failed for the same reason, and never
/// reads from the bitmap again.
pub proof fn lemma_failed_capture_reads_nothing(capture: CaptureView, reply: Seq<u8>)
    requires
        capture.wf(),
        capture.failure is Some,
    ensures
        !(capture.pending() matches Some(Action::Read(_))),
        capture.after(reply).failure == capture.failure,
        capture.after(reply).wf(),
{
}

/// The rows are read from the top down, each 128 bytes behind the one
/// before, and the device is resumed after row 87.
pub proof fn lemma_capture_reads_rows_in_order(capture: CaptureView, row: Seq<u8>)
    requires
        capture.wf(),
        capture.stage == Stage::Rows,
        row.len() == SCREEN_WIDTH,
    ensures
        capture.pending() == Some(Action::Read(row_span(capture.base, capture.row))),
        capture.line(row) == Some(row_text(row)),
        capture.row + 1 < SCREEN_HEIGHT && row_in_range(capture.base as int, capture.row + 1)
            ==> capture.after(row).pending() == Some(
            Action::Read(row_span(capture.base, (capture.row + 1) as u32)),
        ),
        capture.row + 1 == SCREEN_HEIGHT ==> capture.after(row).pending() == Some(
            Action::Send(Command::Resume),
        ) && capture.after(row).failure is None,
{
}

} // verus!
