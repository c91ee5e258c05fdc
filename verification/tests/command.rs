use uartcat::command::{
    catch_header, checksum, decode_header, encode_header, frame_bytes, Access, Address, Command,
    HeaderWindow, CHECKSUM_SEED, HEADER, HEADER_FRAME, MAX_COMMAND,
};

fn sample() -> Command {
    Command {
        token: 0x1234,
        access: Access {
            read: true,
            write: false,
            fixed: true,
            topological: false,
            reserved: 0,
            error: false,
        },
        executed: 2,
        address: Address { slave: 0x0102, register: 0x0304 },
        size: 0x0506,
        checksum: 0x07,
    }
}

#[test]
fn constants_of_the_frame() {
    assert_eq!(MAX_COMMAND, 1024);
    assert_eq!(HEADER, 11);
    assert_eq!(HEADER_FRAME, 12);
    assert_eq!(CHECKSUM_SEED, 0xb7);
}

#[test]
fn checksum_of_no_byte_is_the_seed() {
    assert_eq!(checksum(&[]), 0xb7);
}

#[test]
fn checksum_adds_then_shifts() {
    assert_eq!(checksum(&[0]), 0x6e);
    assert_eq!(checksum(&[1, 2, 3]), 0xce);
}

#[test]
fn checksum_wraps_on_eight_bits() {
    assert_eq!(checksum(&[0xff]), 0x6c);
}

#[test]
fn checksum_depends_on_the_bytes_alone() {
    let first = vec![9u8, 8, 7, 6];
    let second = [9u8, 8, 7, 6];
    assert_eq!(checksum(&first), checksum(&second));
    assert_ne!(checksum(&[9, 8, 7, 6]), checksum(&[9, 8, 6, 7]));
}

#[test]
fn access_packs_from_the_low_bit() {
    let none = Access::from_byte(0);
    assert_eq!(Access { read: true, ..none }.to_byte(), 0x01);
    assert_eq!(Access { write: true, ..none }.to_byte(), 0x02);
    assert_eq!(Access { fixed: true, ..none }.to_byte(), 0x04);
    assert_eq!(Access { topological: true, ..none }.to_byte(), 0x08);
    assert_eq!(Access { reserved: 5, ..none }.to_byte(), 0x50);
    assert_eq!(Access { error: true, ..none }.to_byte(), 0x80);
}

#[test]
fn access_counts_three_reserved_bits() {
    let none = Access::from_byte(0);
    assert_eq!(Access { reserved: 0x0f, ..none }.to_byte(), 0x70);
}

#[test]
fn access_reads_every_byte() {
    for byte in 0..=255u8 {
        let access = Access::from_byte(byte);
        assert!(access.reserved < 8);
        assert_eq!(access.to_byte(), byte);
    }
    let access = Access::from_byte(0b1010_0101);
    assert!(access.read && !access.write && access.fixed && !access.topological);
    assert_eq!(access.reserved, 0b010);
    assert!(access.error);
}

#[test]
fn default_header_is_zero() {
    assert_eq!(encode_header(&Command::default()), [0u8; 11]);
    assert_eq!(Access::default(), Access::from_byte(0));
    assert_eq!(Address::default(), Address::new(0, 0));
}

#[test]
fn address_holds_the_register_above_the_slave() {
    let address = Address::new(0x0102, 0x0304);
    assert_eq!(address.to_u32(), 0x0304_0102);
    assert_eq!(Address::from_u32(0x0304_0102), address);
    assert_eq!(Address::from_u32(0xffff_0000), Address { slave: 0, register: 0xffff });
}

#[test]
fn header_is_big_endian() {
    assert_eq!(
        encode_header(&sample()),
        [0x12, 0x34, 0x05, 0x02, 0x03, 0x04, 0x01, 0x02, 0x05, 0x06, 0x07]
    );
}

#[test]
fn header_reads_back() {
    let header = sample();
    assert_eq!(decode_header(&encode_header(&header)), header);
    let refused = Command {
        access: Access {
            read: true,
            write: true,
            fixed: false,
            topological: true,
            reserved: 7,
            error: true,
        },
        ..header
    };
    assert_eq!(decode_header(&encode_header(&refused)), refused);
}

#[test]
fn every_eleven_bytes_are_a_header() {
    let bytes = [0xff, 0xfe, 0xfd, 0xfc, 0xfb, 0xfa, 0xf9, 0xf8, 0xf7, 0xf6, 0xf5];
    let header = decode_header(&bytes);
    assert_eq!(header.token, 0xfffe);
    assert_eq!(header.access, Access::from_byte(0xfd));
    assert_eq!(header.executed, 0xfc);
    assert_eq!(header.address, Address { slave: 0xf9f8, register: 0xfbfa });
    assert_eq!(header.size, 0xf7f6);
    assert_eq!(header.checksum, 0xf5);
    assert_eq!(encode_header(&header), bytes);
}

#[test]
fn frame_is_header_checksum_data() {
    let header = Command { size: 3, ..sample() };
    let frame = frame_bytes(&header, &[7, 8, 9]);
    let packed = encode_header(&header);
    assert_eq!(frame.len(), 15);
    assert_eq!(&frame[..11], &packed[..]);
    assert_eq!(frame[11], checksum(&packed));
    assert_eq!(&frame[12..], &[7, 8, 9]);
}

#[test]
fn header_with_its_checksum_is_caught_at_once() {
    let header = sample();
    let mut stream = encode_header(&header).to_vec();
    stream.push(checksum(&stream));
    assert_eq!(catch_header(&stream), Some((12, header)));
}

#[test]
fn window_accepts_a_header_with_its_checksum() {
    let packed = encode_header(&sample());
    let mut bytes = [0u8; 12];
    bytes[..11].copy_from_slice(&packed);
    bytes[11] = checksum(&packed);
    let window = HeaderWindow::new(bytes);
    assert!(window.accepts());
    assert_eq!(window.command(), sample());
    bytes[11] ^= 1;
    assert!(!HeaderWindow::new(bytes).accepts());
}

#[test]
fn window_slides_by_one_byte() {
    let packed = encode_header(&sample());
    let mut bytes = [0u8; 12];
    bytes[0] = 0x99;
    bytes[1..].copy_from_slice(&packed);
    let mut window = HeaderWindow::new(bytes);
    window.advance(checksum(&packed));
    assert!(window.accepts());
    assert_eq!(window.command(), sample());
}

#[test]
fn garbage_before_a_frame_is_skipped() {
    let header = Command { size: 2, ..sample() };
    let mut stream = vec![0xde, 0xad, 0xbe, 0xef, 0x42];
    stream.extend_from_slice(&frame_bytes(&header, &[0xaa, 0xbb]));
    let found = catch_header(&stream);
    assert_eq!(found, Some((17, header)));
    assert_eq!(&stream[17..], &[0xaa, 0xbb]);
}

#[test]
fn stream_without_a_header_gives_none() {
    assert_eq!(catch_header(&[]), None);
    assert_eq!(catch_header(&[1, 2, 3, 4, 5, 6, 7, 8, 9, 10, 11]), None);
    let mut stream = encode_header(&sample()).to_vec();
    stream.push(checksum(&stream) ^ 0x10);
    assert_eq!(catch_header(&stream), None);
}

#[test]
fn access_and_address_convert_from_and_to_integers() {
    assert_eq!(Access::from(0x85u8), Access::from_byte(0x85));
    assert_eq!(u8::from(Access::from(0x85u8)), 0x85);
    assert_eq!(u8::from(Access { reserved: 9, ..Access::from_byte(0) }), 0x10);
    assert_eq!(Address::from(0x0304_0102u32), Address { slave: 0x0102, register: 0x0304 });
    assert_eq!(u32::from(Address { slave: 0x0102, register: 0x0304 }), 0x0304_0102);
}
