use piece::command::Command;
use piece::error::Error;
use piece::memory::Window;
use piece::screen::{
    glyph, parse_descriptor, render_row, row_window, Action, Capture, SCREEN_HEIGHT, SCREEN_WIDTH,
};

fn descriptor(width: u8, height: u8, base: u32) -> Vec<u8> {
    let mut raw = vec![0x77u8; 12];
    raw[2] = width;
    raw[4] = height;
    raw[8..12].copy_from_slice(&base.to_le_bytes());
    raw
}

fn pixel(address: u32) -> u8 {
    (address % 7) as u8
}

fn row_pixels(window: Window) -> Vec<u8> {
    (0..window.length).map(|i| pixel(window.address + i)).collect()
}

/// Drives a capture against a device that answers the display query with
/// `descriptor`: what it was asked to do, the lines it drew, and how it ended.
fn drive(descriptor: &[u8]) -> (Vec<Action>, Vec<String>, Option<Error>) {
    let mut capture = Capture::new();
    let mut asked = Vec::new();
    let mut lines = Vec::new();
    while let Some(action) = capture.next() {
        asked.push(action);
        let reply = match action {
            Action::Send(Command::QueryDisplay) => descriptor.to_vec(),
            Action::Send(_) => Vec::new(),
            Action::Read(window) => row_pixels(window),
        };
        if let Some(line) = capture.accept(&reply) {
            lines.push(line);
        }
    }
    (asked, lines, capture.failure())
}

#[test]
fn glyph_mapping() {
    assert_eq!(glyph(3), " ");
    assert_eq!(glyph(2), "\u{2591}");
    assert_eq!(glyph(1), "\u{2592}");
    assert_eq!(glyph(0), "\u{2593}");
    assert_eq!(glyph(5), "X");
}

#[test]
fn every_value_that_is_no_brightness_is_drawn_as_x() {
    for value in 4..=255u8 {
        assert_eq!(glyph(value), "X");
    }
}

#[test]
fn a_row_is_drawn_pixel_by_pixel() {
    assert_eq!(render_row(&[3, 2, 1, 0, 4]), " \u{2591}\u{2592}\u{2593}X");
    assert_eq!(render_row(&[]), "");
    assert_eq!(render_row(&[0; 128]), "\u{2593}".repeat(128));
    assert_eq!(render_row(&[255, 3, 255]), "X X");
}

#[test]
fn the_descriptor_names_width_height_and_bitmap() {
    assert_eq!(SCREEN_WIDTH, 128);
    assert_eq!(SCREEN_HEIGHT, 88);
    assert_eq!(parse_descriptor(&descriptor(128, 88, 0x0010_2030)), Ok(0x0010_2030));
    let mut raw = descriptor(128, 88, 0);
    raw[8] = 0x01;
    raw[9] = 0x02;
    raw[10] = 0x03;
    raw[11] = 0x04;
    assert_eq!(parse_descriptor(&raw), Ok(0x0403_0201));
}

#[test]
fn only_a_screen_of_128_by_88_is_accepted() {
    for (width, height) in [(127, 88), (128, 87), (88, 128), (0, 0), (128, 0), (0, 88), (129, 89)]
    {
        assert_eq!(
            parse_descriptor(&descriptor(width, height, 0x1000)),
            Err(Error::ProtocolAssertionFailure),
            "{} x {}",
            width,
            height
        );
    }
}

#[test]
fn the_other_descriptor_bytes_are_not_read() {
    let mut raw = descriptor(128, 88, 5);
    for at in [0, 1, 3, 5, 6, 7] {
        raw[at] = 0;
    }
    assert_eq!(parse_descriptor(&raw), Ok(5));
}

#[test]
fn a_descriptor_of_another_size_is_a_short_read() {
    assert_eq!(parse_descriptor(&descriptor(128, 88, 0)[..11]), Err(Error::TransportError));
    assert_eq!(parse_descriptor(&[0u8; 13]), Err(Error::TransportError));
    assert_eq!(parse_descriptor(&[]), Err(Error::TransportError));
}

#[test]
fn rows_lie_128_bytes_apart() {
    assert_eq!(row_window(0x2000, 0), Ok(Window { address: 0x2000, length: 128 }));
    assert_eq!(row_window(0x2000, 1), Ok(Window { address: 0x2080, length: 128 }));
    assert_eq!(row_window(0x2000, 87), Ok(Window { address: 0x2000 + 87 * 128, length: 128 }));
    assert_eq!(row_window(0xffff_ff80, 0), Ok(Window { address: 0xffff_ff80, length: 128 }));
    assert_eq!(row_window(0xffff_ff81, 0), Err(Error::AddressOverflow));
    assert_eq!(row_window(0xffff_ff80, 1), Err(Error::AddressOverflow));
    assert_eq!(row_window(0, 0xffff_ffff), Err(Error::AddressOverflow));
}

#[test]
fn a_capture_pauses_queries_reads_88_rows_and_resumes() {
    let base = 0x0013_0000;
    let (asked, lines, failure) = drive(&descriptor(128, 88, base));
    assert_eq!(failure, None);
    assert_eq!(asked.len(), 2 + 88 + 1);
    assert_eq!(asked[0], Action::Send(Command::Pause));
    assert_eq!(asked[1], Action::Send(Command::QueryDisplay));
    for row in 0..88u32 {
        assert_eq!(
            asked[2 + row as usize],
            Action::Read(Window { address: base + row * 128, length: 128 })
        );
    }
    assert_eq!(asked[90], Action::Send(Command::Resume));
    assert_eq!(lines.len(), 88);
    for (row, line) in lines.iter().enumerate() {
        let window = Window { address: base + row as u32 * 128, length: 128 };
        assert_eq!(*line, render_row(&row_pixels(window)));
        assert_eq!(line.chars().count(), 128);
    }
}

#[test]
fn another_screen_fails_before_any_row_is_read() {
    for (width, height) in [(64, 88), (128, 64), (0, 0)] {
        let (asked, lines, failure) = drive(&descriptor(width, height, 0x1000));
        assert_eq!(
            asked,
            vec![
                Action::Send(Command::Pause),
                Action::Send(Command::QueryDisplay),
                Action::Send(Command::Resume),
            ]
        );
        assert!(lines.is_empty());
        assert_eq!(failure, Some(Error::ProtocolAssertionFailure));
    }
}

#[test]
fn a_short_descriptor_fails_the_capture_and_resumes() {
    let (asked, lines, failure) = drive(&[0u8; 11]);
    assert_eq!(asked.len(), 3);
    assert_eq!(asked[2], Action::Send(Command::Resume));
    assert!(lines.is_empty());
    assert_eq!(failure, Some(Error::TransportError));
}

#[test]
fn a_bitmap_past_the_last_address_fails_the_capture() {
    let (asked, lines, failure) = drive(&descriptor(128, 88, 0xffff_ff00));
    assert_eq!(
        asked,
        vec![
            Action::Send(Command::Pause),
            Action::Send(Command::QueryDisplay),
            Action::Read(Window { address: 0xffff_ff00, length: 128 }),
            Action::Read(Window { address: 0xffff_ff80, length: 128 }),
            Action::Send(Command::Resume),
        ]
    );
    assert_eq!(lines.len(), 2);
    assert_eq!(failure, Some(Error::AddressOverflow));
}

#[test]
fn a_failed_transfer_in_the_middle_still_resumes() {
    let mut capture = Capture::new();
    assert_eq!(capture.accept(&[]), None);
    assert_eq!(capture.accept(&descriptor(128, 88, 0x4000)), None);
    assert!(capture.accept(&[3u8; 128]).is_some());
    assert_eq!(capture.next(), Some(Action::Read(Window { address: 0x4080, length: 128 })));
    capture.fail();
    assert_eq!(capture.failure(), Some(Error::TransportError));
    assert_eq!(capture.next(), Some(Action::Send(Command::Resume)));
    assert_eq!(capture.accept(&[]), None);
    assert_eq!(capture.next(), None);
    assert_eq!(capture.failure(), Some(Error::TransportError));
}

#[test]
fn a_short_row_fails_the_capture_and_resumes() {
    let mut capture = Capture::new();
    capture.accept(&[]);
    capture.accept(&descriptor(128, 88, 0x4000));
    assert_eq!(capture.accept(&[3u8; 127]), None);
    assert_eq!(capture.failure(), Some(Error::TransportError));
    assert_eq!(capture.next(), Some(Action::Send(Command::Resume)));
}

#[test]
fn a_failed_pause_still_tries_to_resume() {
    let mut capture = Capture::new();
    assert_eq!(capture.next(), Some(Action::Send(Command::Pause)));
    capture.fail();
    assert_eq!(capture.next(), Some(Action::Send(Command::Resume)));
    capture.fail();
    assert_eq!(capture.next(), None);
    assert_eq!(capture.failure(), Some(Error::TransportError));
}

#[test]
fn the_first_failure_is_the_one_reported() {
    let mut capture = Capture::new();
    capture.accept(&[]);
    capture.accept(&descriptor(1, 1, 0));
    assert_eq!(capture.failure(), Some(Error::ProtocolAssertionFailure));
    capture.fail();
    assert_eq!(capture.next(), None);
    assert_eq!(capture.failure(), Some(Error::ProtocolAssertionFailure));
}

#[test]
fn a_failed_resume_fails_a_capture_that_went_well() {
    let mut capture = Capture::new();
    capture.accept(&[]);
    capture.accept(&descriptor(128, 88, 0));
    for _ in 0..88 {
        assert!(capture.accept(&[0u8; 128]).is_some());
    }
    assert_eq!(capture.next(), Some(Action::Send(Command::Resume)));
    assert_eq!(capture.failure(), None);
    capture.fail();
    assert_eq!(capture.next(), None);
    assert_eq!(capture.failure(), Some(Error::TransportError));
}

#[test]
fn a_finished_capture_takes_nothing_more() {
    let (_, _, failure) = drive(&descriptor(128, 88, 0));
    assert_eq!(failure, None);
    let mut capture = Capture::new();
    capture.fail();
    capture.fail();
    assert_eq!(capture.accept(&[0u8; 128]), None);
    capture.fail();
    assert_eq!(capture.next(), None);
    assert_eq!(capture.failure(), Some(Error::TransportError));
}

#[test]
fn an_answer_to_pause_is_a_transport_error() {
    let mut capture = Capture::new();
    assert_eq!(capture.accept(&[1]), None);
    assert_eq!(capture.failure(), Some(Error::TransportError));
    assert_eq!(capture.next(), Some(Action::Send(Command::Resume)));
}
