use piece::command::Command;
use piece::error::Error;
use piece::memory::{MemoryRead, Window, ADDRESS_SPACE, CHUNK_SIZE};

/// A flash whose byte at each address is a fixed function of the address.
fn flash_byte(address: u32) -> u8 {
    (address ^ (address >> 8) ^ (address >> 16)).to_le_bytes()[0]
}

fn flash_window(address: u32, length: u32) -> Vec<u8> {
    (0..length).map(|i| flash_byte(address + i)).collect()
}

/// Runs a read against the flash and gives back the commands it asked and
/// the bytes it assembled.
fn run(address: u32, length: u32) -> (Vec<Command>, Vec<u8>) {
    let mut read = MemoryRead::new(Window { address, length }).unwrap();
    let mut asked = Vec::new();
    while let Some(command) = read.next() {
        asked.push(command);
        match command {
            Command::ReadMemory { address, length } => {
                assert_eq!(read.accept(&flash_window(address, length)), Ok(()));
            }
            other => panic!("a memory read asked for {:?}", other),
        }
    }
    assert!(read.is_complete());
    (asked, read.finish())
}

#[test]
fn fifty_bytes_take_requests_of_32_and_18() {
    let (asked, data) = run(0x1000, 50);
    assert_eq!(
        asked,
        vec![
            Command::ReadMemory { address: 0x1000, length: 32 },
            Command::ReadMemory { address: 0x1020, length: 18 },
        ]
    );
    assert_eq!(data, flash_window(0x1000, 50));
}

#[test]
fn a_whole_number_of_chunks_has_no_short_request() {
    let (asked, data) = run(7, 64);
    assert_eq!(
        asked,
        vec![
            Command::ReadMemory { address: 7, length: 32 },
            Command::ReadMemory { address: 39, length: 32 },
        ]
    );
    assert_eq!(data, flash_window(7, 64));
}

#[test]
fn request_count_is_length_over_32_rounded_up() {
    for length in [0u32, 1, 31, 32, 33, 63, 64, 65, 128, 992, 3040, 4096, 5000] {
        let (asked, data) = run(0x00c0_0000, length);
        assert_eq!(asked.len() as u32, (length + 31) / 32, "length {}", length);
        assert_eq!(data, flash_window(0x00c0_0000, length));
        for (index, command) in asked.iter().enumerate() {
            let offset = 32 * index as u32;
            assert_eq!(
                *command,
                Command::ReadMemory {
                    address: 0x00c0_0000 + offset,
                    length: (length - offset).min(32),
                }
            );
        }
    }
}

#[test]
fn nothing_is_asked_for_an_empty_window() {
    let read = MemoryRead::new(Window { address: 0x1234, length: 0 }).unwrap();
    assert_eq!(read.next(), None);
    assert!(read.is_complete());
    assert_eq!(read.finish(), Vec::<u8>::new());
}

#[test]
fn one_byte_takes_one_request_of_one_byte() {
    let (asked, data) = run(0xdead_beef, 1);
    assert_eq!(asked, vec![Command::ReadMemory { address: 0xdead_beef, length: 1 }]);
    assert_eq!(data, vec![flash_byte(0xdead_beef)]);
}

#[test]
fn a_window_may_end_at_the_last_address() {
    let (asked, data) = run(0xffff_ffc0, 64);
    assert_eq!(
        asked,
        vec![
            Command::ReadMemory { address: 0xffff_ffc0, length: 32 },
            Command::ReadMemory { address: 0xffff_ffe0, length: 32 },
        ]
    );
    assert_eq!(data.len(), 64);
}

#[test]
fn a_window_past_the_last_address_is_refused() {
    let window = Window { address: 0xffff_ffc0, length: 65 };
    assert!(!window.in_range());
    assert_eq!(MemoryRead::new(window).err(), Some(Error::AddressOverflow));
    let widest = Window { address: 0xffff_ffff, length: 0xffff_ffff };
    assert_eq!(MemoryRead::new(widest).err(), Some(Error::AddressOverflow));
}

#[test]
fn window_range_check_is_exact() {
    assert!(Window { address: 0, length: 0 }.in_range());
    assert!(Window { address: 0xffff_ffff, length: 1 }.in_range());
    assert!(!Window { address: 0xffff_ffff, length: 2 }.in_range());
    assert!(Window { address: 1, length: 0xffff_ffff }.in_range());
    assert!(!Window { address: 2, length: 0xffff_ffff }.in_range());
    assert_eq!(ADDRESS_SPACE, 1u64 << 32);
    assert_eq!(CHUNK_SIZE, 32);
}

#[test]
fn a_short_answer_is_a_transport_error_and_changes_nothing() {
    let mut read = MemoryRead::new(Window { address: 0x100, length: 50 }).unwrap();
    let first = read.next();
    assert_eq!(first, Some(Command::ReadMemory { address: 0x100, length: 32 }));
    assert_eq!(read.accept(&[0u8; 31]), Err(Error::TransportError));
    assert_eq!(read.accept(&[0u8; 33]), Err(Error::TransportError));
    assert_eq!(read.accept(&[]), Err(Error::TransportError));
    assert_eq!(read.next(), first);
    assert_eq!(read.accept(&[9u8; 32]), Ok(()));
    assert_eq!(read.next(), Some(Command::ReadMemory { address: 0x120, length: 18 }));
    assert_eq!(read.accept(&[1u8; 32]), Err(Error::TransportError));
    assert_eq!(read.accept(&[1u8; 18]), Ok(()));
    let mut expected = vec![9u8; 32];
    expected.extend_from_slice(&[1u8; 18]);
    assert_eq!(read.finish(), expected);
}

#[test]
fn an_answer_nobody_asked_for_is_a_transport_error() {
    let mut read = MemoryRead::new(Window { address: 0, length: 4 }).unwrap();
    assert_eq!(read.accept(&[1, 2, 3, 4]), Ok(()));
    assert_eq!(read.next(), None);
    assert_eq!(read.accept(&[5, 6, 7, 8]), Err(Error::TransportError));
    assert_eq!(read.accept(&[]), Err(Error::TransportError));
    assert_eq!(read.finish(), vec![1, 2, 3, 4]);
}

#[test]
fn answers_are_kept_in_the_order_given() {
    let mut read = MemoryRead::new(Window { address: 0, length: 70 }).unwrap();
    assert_eq!(read.accept(&[1u8; 32]), Ok(()));
    assert!(!read.is_complete());
    assert_eq!(read.accept(&[2u8; 32]), Ok(()));
    assert_eq!(read.next(), Some(Command::ReadMemory { address: 64, length: 6 }));
    assert_eq!(read.accept(&[3u8; 6]), Ok(()));
    assert!(read.is_complete());
    let data = read.finish();
    assert_eq!(&data[..32], &[1u8; 32]);
    assert_eq!(&data[32..64], &[2u8; 32]);
    assert_eq!(&data[64..], &[3u8; 6]);
}
