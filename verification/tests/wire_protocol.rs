use piece::command::{
    Command, DESCRIPTOR_SIZE, ENDPOINT_IN, ENDPOINT_OUT, INTERFACE, PRODUCT_ID, TIMEOUT_MILLIS,
    VENDOR_ID, VERSION_SIZE,
};
use piece::error::Error;
use piece::session::Piece;

#[test]
fn identify_is_two_bytes_asking_for_thirty_two() {
    assert_eq!(Command::Identify.encode(), vec![0x00, 0x20]);
    assert_eq!(Command::Identify.reply_len(), 32);
    assert_eq!(VERSION_SIZE, 32);
}

#[test]
fn pause_and_resume_differ_in_their_second_byte() {
    assert_eq!(Command::Pause.encode(), vec![0x10, 0x01]);
    assert_eq!(Command::Resume.encode(), vec![0x10, 0x00]);
    assert_eq!(Command::Pause.reply_len(), 0);
    assert_eq!(Command::Resume.reply_len(), 0);
}

#[test]
fn query_display_is_one_byte_answered_by_twelve() {
    assert_eq!(Command::QueryDisplay.encode(), vec![0x11]);
    assert_eq!(Command::QueryDisplay.reply_len(), 12);
    assert_eq!(DESCRIPTOR_SIZE, 12);
}

#[test]
fn read_memory_spells_address_and_length_little_endian() {
    let command = Command::ReadMemory { address: 0x1234_5678, length: 18 };
    assert_eq!(
        command.encode(),
        vec![0x02, 0x78, 0x56, 0x34, 0x12, 18, 0, 0, 0]
    );
    assert_eq!(command.reply_len(), 18);
}

#[test]
fn read_memory_of_the_highest_address() {
    let command = Command::ReadMemory { address: 0xffff_ffff, length: 0x0102_0304 };
    assert_eq!(
        command.encode(),
        vec![0x02, 0xff, 0xff, 0xff, 0xff, 0x04, 0x03, 0x02, 0x01]
    );
}

#[test]
fn the_device_is_found_by_fixed_identifiers() {
    assert_eq!(VENDOR_ID, 0x0e19);
    assert_eq!(PRODUCT_ID, 0x1000);
    assert_eq!(INTERFACE, 0);
    assert_eq!(ENDPOINT_OUT, 0x02);
    assert_eq!(ENDPOINT_IN, 0x82);
    assert_eq!(TIMEOUT_MILLIS, 1000);
}

#[test]
fn handshake_reads_pffs_top_from_bytes_24_to_27() {
    let mut version = vec![0xaau8; 32];
    version[24] = 0x00;
    version[25] = 0x40;
    version[26] = 0xc2;
    version[27] = 0x00;
    let piece = Piece::new(&version).unwrap();
    assert_eq!(piece.pffs_top(), 0x00c2_4000);
}

#[test]
fn handshake_ignores_the_rest_of_the_version_block() {
    let mut version = vec![0u8; 32];
    version[23] = 0xff;
    version[24] = 1;
    version[28] = 0xff;
    assert_eq!(Piece::new(&version).unwrap().pffs_top(), 1);
}

#[test]
fn handshake_refuses_a_short_version_block() {
    assert_eq!(Piece::new(&[0u8; 31]).err(), Some(Error::TransportError));
    assert_eq!(Piece::new(&[]).err(), Some(Error::TransportError));
    assert_eq!(Piece::new(&[0u8; 33]).err(), Some(Error::TransportError));
}
