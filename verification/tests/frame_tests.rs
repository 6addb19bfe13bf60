use bitcoinrs::frame::{build_frame, checksum, COMMAND_LEN, HEADER_LEN, MAGIC_LEN};

fn main_magic() -> Vec<u8> {
    vec![0xf9, 0xbe, 0xb4, 0xd9]
}

fn command(name: &[u8]) -> Vec<u8> {
    let mut c = name.to_vec();
    while c.len() < COMMAND_LEN {
        c.push(0);
    }
    c
}

#[test]
fn checksum_is_byte_total_low_bits() {
    assert_eq!(checksum(&Vec::new()), 0);
    assert_eq!(checksum(&vec![1, 2, 3]), 6);
    assert_eq!(checksum(&vec![255, 255]), 510);
}

#[test]
fn frame_layout_is_magic_command_length_checksum_payload() {
    let magic = main_magic();
    let cmd = command(b"ping");
    let payload = vec![1u8, 2, 3];
    let frame = build_frame(&magic, &cmd, &payload);
    assert_eq!(frame.len(), HEADER_LEN + payload.len());
    assert_eq!(&frame[0..MAGIC_LEN], &magic[..]);
    assert_eq!(&frame[MAGIC_LEN..MAGIC_LEN + COMMAND_LEN], &cmd[..]);
    // payload length, little-endian
    assert_eq!(&frame[16..20], &[3, 0, 0, 0]);
    // checksum 1 + 2 + 3 = 6, little-endian
    assert_eq!(&frame[20..24], &[6, 0, 0, 0]);
    assert_eq!(&frame[HEADER_LEN..], &payload[..]);
}

#[test]
fn frame_of_empty_payload_is_just_a_header() {
    let magic = main_magic();
    let cmd = command(b"verack");
    let frame = build_frame(&magic, &cmd, &Vec::new());
    assert_eq!(frame.len(), HEADER_LEN);
    assert_eq!(&frame[16..24], &[0, 0, 0, 0, 0, 0, 0, 0]);
}
