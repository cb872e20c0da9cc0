use wfb_rs::fec::ConfigError;
use wfb_rs::tx_fec::TXFec;

fn encoder(min_block_size: u16, packet_size: u16, repair: u32) -> TXFec {
    match TXFec::new(min_block_size, packet_size, repair) {
        Ok(tx) => tx,
        Err(e) => panic!("configuration turned down: {:?}", e),
    }
}

fn fixed_encoder(min_block_size: u16, block_size: u16, packet_size: u16, repair: u32) -> TXFec {
    match TXFec::new_static(min_block_size, block_size, packet_size, repair) {
        Ok(tx) => tx,
        Err(e) => panic!("configuration turned down: {:?}", e),
    }
}

fn error_of(made: Result<TXFec, ConfigError>) -> Option<ConfigError> {
    match made {
        Ok(_) => None,
        Err(e) => Some(e),
    }
}

#[test]
fn packet_size_must_leave_room_for_a_symbol() {
    assert_eq!(error_of(TXFec::new(10, 4, 2)), Some(ConfigError::PacketSizeTooSmall));
    assert_eq!(error_of(TXFec::new(10, 0, 2)), Some(ConfigError::PacketSizeTooSmall));
    assert_eq!(error_of(TXFec::new(10, 5, 2)), None);
    assert_eq!(
        error_of(TXFec::new_static(10, 100, 4, 2)),
        Some(ConfigError::PacketSizeTooSmall)
    );
}

#[test]
fn repair_symbols_are_limited() {
    assert_eq!(error_of(TXFec::new(10, 8, 992_173)), None);
    assert_eq!(
        error_of(TXFec::new(10, 8, 992_174)),
        Some(ConfigError::TooManyRepairSymbols)
    );
    assert_eq!(
        error_of(TXFec::new_static(10, 100, 8, u32::MAX)),
        Some(ConfigError::TooManyRepairSymbols)
    );
}

#[test]
fn fixed_block_must_hold_a_directory() {
    assert_eq!(
        error_of(TXFec::new_static(10, 4, 8, 2)),
        Some(ConfigError::BlockSizeTooSmall)
    );
    assert_eq!(error_of(TXFec::new_static(10, 5, 8, 2)), None);
}

#[test]
fn fixed_block_must_not_take_too_many_symbols() {
    assert_eq!(
        error_of(TXFec::new_static(10, 56_404, 5, 2)),
        Some(ConfigError::TooManySymbols)
    );
    assert_eq!(error_of(TXFec::new_static(10, 56_403, 5, 2)), None);
}

#[test]
fn block_stays_open_below_the_minimum_size() {
    let mut tx = encoder(10, 8, 2);
    assert_eq!(tx.block_id(), 0);
    assert_eq!(tx.process_packet_fec(b"HELLO"), None);
    assert_eq!(tx.pending_count(), 1);
    assert_eq!(tx.pending_bytes(), 5);
    assert_eq!(tx.process_packet_fec(b"WORL"), None);
    assert_eq!(tx.pending_count(), 2);
    assert_eq!(tx.pending_bytes(), 9);
    assert_eq!(tx.block_id(), 0);
}

#[test]
fn block_closes_at_the_minimum_size() {
    let mut tx = encoder(10, 8, 2);
    assert_eq!(tx.process_packet_fec(b"HELLO"), None);
    let packets = tx.process_packet_fec(b"WORLD").unwrap();
    // 10 bytes of datagrams, 3 offsets and the count: 17 bytes, 5 symbols of 4.
    assert_eq!(packets.len(), 5 + 2);
    assert_eq!(tx.pending_count(), 0);
    assert_eq!(tx.pending_bytes(), 0);
    assert_eq!(tx.block_id(), 1);
}

#[test]
fn coded_packets_carry_parameters_tag_and_symbol() {
    let mut tx = encoder(10, 8, 2);
    assert_eq!(tx.process_packet_fec(b"HELLO"), None);
    let packets = tx.process_packet_fec(b"WORLD").unwrap();
    // The block: datagrams, padding to 20 bytes, offsets 0 5 10, count 3.
    let block: Vec<u8> = vec![
        b'H', b'E', b'L', b'L', b'O', b'W', b'O', b'R', b'L', b'D', 0, 0, 0, 0, 0, 5, 0, 10, 0, 3,
    ];
    for (i, packet) in packets.iter().enumerate() {
        assert_eq!(packet.len(), 4 + 8);
        assert_eq!(&packet[..4], &[17, 0, 8, 0]);
        assert_eq!(&packet[4..8], &[0, 0, 0, i as u8]);
    }
    for i in 0..5 {
        assert_eq!(&packets[i][8..], &block[4 * i..4 * i + 4]);
    }
}

#[test]
fn repair_packets_differ_from_one_another() {
    let mut tx = encoder(10, 8, 3);
    assert_eq!(tx.process_packet_fec(b"HELLO"), None);
    let packets = tx.process_packet_fec(b"WORLD").unwrap();
    assert_eq!(packets.len(), 8);
    assert_ne!(packets[5][8..], packets[6][8..]);
    assert_ne!(packets[6][8..], packets[7][8..]);
}

#[test]
fn same_block_gives_same_packets() {
    let mut first = encoder(10, 8, 4);
    let mut second = encoder(10, 8, 4);
    assert_eq!(first.process_packet_fec(b"HELLO"), None);
    assert_eq!(second.process_packet_fec(b"HELLO"), None);
    assert_eq!(first.process_packet_fec(b"WORLD"), second.process_packet_fec(b"WORLD"));
}

#[test]
fn block_identifier_counts_up_and_wraps() {
    let mut tx = encoder(1, 8, 0);
    for round in 0..600u32 {
        assert_eq!(tx.block_id(), (round % 256) as u8);
        let packets = tx.process_packet_fec(b"x").unwrap();
        for packet in packets {
            assert_eq!(packet[4], (round % 256) as u8);
        }
    }
}

#[test]
fn large_datagram_closes_its_block_at_once() {
    let mut tx = encoder(10, 8, 1);
    let packets = tx.process_packet_fec(b"a datagram longer than the minimum").unwrap();
    // 34 bytes, 2 offsets and the count: 39 bytes, 10 symbols of 4.
    assert_eq!(packets.len(), 10 + 1);
    assert_eq!(&packets[0][..4], &[39, 0, 8, 0]);
    assert_eq!(tx.pending_count(), 0);
    assert_eq!(tx.block_id(), 1);
}

#[test]
fn minimum_size_of_zero_closes_every_block() {
    let mut tx = encoder(0, 8, 0);
    let packets = tx.process_packet_fec(b"").unwrap();
    // no datagram bytes, 2 offsets and the count: 5 bytes, 2 symbols of 4.
    assert_eq!(packets.len(), 2);
    assert_eq!(packets[0], vec![5, 0, 8, 0, 0, 0, 0, 0, 0, 0, 0, 0]);
    assert_eq!(packets[1], vec![5, 0, 8, 0, 0, 0, 0, 1, 0, 0, 0, 2]);
    assert_eq!(tx.block_id(), 1);
}

#[test]
fn empty_flush_sends_nothing() {
    let mut tx = encoder(10, 8, 2);
    assert_eq!(tx.flush(), None);
    assert_eq!(tx.block_id(), 0);
}

#[test]
fn forced_flush_closes_the_block() {
    let mut tx = encoder(100, 8, 2);
    assert_eq!(tx.process_packet_fec(b"abc"), None);
    let packets = tx.flush().unwrap();
    // 3 bytes, 2 offsets and the count: 8 bytes, 2 symbols of 4.
    assert_eq!(packets.len(), 2 + 2);
    assert_eq!(packets[0], vec![8, 0, 8, 0, 0, 0, 0, 0, b'a', b'b', b'c', 0]);
    assert_eq!(packets[1], vec![8, 0, 8, 0, 0, 0, 0, 1, 0, 3, 0, 2]);
    assert_eq!(tx.block_id(), 1);
    assert_eq!(tx.pending_count(), 0);
    assert_eq!(tx.flush(), None);
}

#[test]
fn directory_full_closes_the_block() {
    let mut tx = encoder(60_000, 104, 0);
    for i in 0..253 {
        assert_eq!(tx.process_packet_fec(&[i as u8]), None);
    }
    assert_eq!(tx.pending_count(), 253);
    let packets = tx.process_packet_fec(&[253]).unwrap();
    // 254 bytes, 255 offsets and the count: 765 bytes, 8 symbols of 100.
    assert_eq!(packets.len(), 8);
    assert_eq!(&packets[0][..4], &[0xfd, 0x02, 104, 0]);
    assert_eq!(tx.pending_count(), 0);
    assert_eq!(tx.block_id(), 1);
}

#[test]
fn datagram_without_room_closes_the_block_before_it_joins() {
    let mut tx = encoder(60_000, 1004, 0);
    assert_eq!(tx.process_packet_fec(&vec![1u8; 40_000]), None);
    let packets = tx.process_packet_fec(&vec![2u8; 30_000]).unwrap();
    // the first block alone: 40000 bytes, 2 offsets and the count
    assert_eq!(packets.len(), 41);
    assert_eq!(&packets[0][..4], &[(40_005u32 % 256) as u8, (40_005u32 / 256) as u8, 0xec, 0x03]);
    assert_eq!(packets[0][4], 0);
    assert_eq!(tx.block_id(), 1);
    assert_eq!(tx.pending_count(), 1);
    assert_eq!(tx.pending_bytes(), 30_000);
}

#[test]
fn datagram_without_room_may_close_two_blocks() {
    let mut tx = encoder(50_000, 1004, 0);
    assert_eq!(tx.process_packet_fec(&vec![1u8; 40_000]), None);
    let packets = tx.process_packet_fec(&vec![2u8; 50_000]).unwrap();
    assert_eq!(packets.len(), 41 + 51);
    assert_eq!(packets[40][4], 0);
    assert_eq!(packets[41][4], 1);
    assert_eq!(tx.block_id(), 2);
    assert_eq!(tx.pending_count(), 0);
}

#[test]
fn datagram_that_no_block_can_hold_is_dropped() {
    let mut tx = encoder(10, 1004, 0);
    assert_eq!(tx.process_packet_fec(b"abc"), None);
    assert_eq!(tx.process_packet_fec(&vec![0u8; 65_531]), None);
    assert_eq!(tx.pending_count(), 1);
    assert_eq!(tx.pending_bytes(), 3);
    assert_eq!(tx.block_id(), 0);
    // the largest that a block can hold
    let packets = tx.process_packet_fec(&vec![0u8; 65_530]).unwrap();
    assert_eq!(packets[0][4], 0);
    assert_eq!(tx.block_id(), 2);
}

#[test]
fn fixed_blocks_all_have_the_agreed_length() {
    let mut tx = fixed_encoder(10, 40, 12, 1);
    assert_eq!(tx.process_packet_fec(b"HELLO"), None);
    let packets = tx.process_packet_fec(b"WORLD").unwrap();
    // 40 bytes in symbols of 8: 5 source symbols, no parameters in front.
    assert_eq!(packets.len(), 5 + 1);
    for (i, packet) in packets.iter().enumerate() {
        assert_eq!(packet.len(), 12);
        assert_eq!(&packet[..4], &[0, 0, 0, i as u8]);
    }
    assert_eq!(&packets[0][4..], b"HELLOWOR");
    assert_eq!(&packets[1][4..], &[b'L', b'D', 0, 0, 0, 0, 0, 0]);
    assert_eq!(&packets[4][4..], &[0, 0, 0, 5, 0, 10, 0, 3]);
}

#[test]
fn fixed_block_closes_when_it_has_no_room() {
    let mut tx = fixed_encoder(1000, 20, 8, 0);
    // room for 20 bytes: 9 bytes of datagrams with 3 offsets and the count is 16
    assert_eq!(tx.process_packet_fec(b"abcd"), None);
    assert_eq!(tx.process_packet_fec(b"efghi"), None);
    // a third datagram needs 2 more bytes of directory: "jk" does not fit
    let packets = tx.process_packet_fec(b"jkl").unwrap();
    assert_eq!(packets.len(), 5);
    assert_eq!(tx.pending_count(), 1);
    assert_eq!(tx.block_id(), 1);
    // 16 bytes cannot be held at all: 16 + 5 > 20
    assert_eq!(tx.process_packet_fec(&[0u8; 16]), None);
    assert_eq!(tx.pending_count(), 1);
}

#[test]
fn small_symbols_lower_the_room_of_a_block() {
    // symbols of one byte: a block holds as many bytes as the code allows symbols
    let mut tx = encoder(60_000, 5, 0);
    assert_eq!(tx.process_packet_fec(&vec![0u8; 56_399]), None);
    assert_eq!(tx.pending_count(), 0);
    assert_eq!(tx.process_packet_fec(&vec![0u8; 56_398]), None);
    assert_eq!(tx.pending_count(), 1);
    assert_eq!(tx.pending_bytes(), 56_398);
    // symbols of two bytes: a block holds what a 16-bit length can state
    let mut tx = encoder(60_000, 6, 0);
    assert_eq!(tx.process_packet_fec(&vec![0u8; 56_399]), None);
    assert_eq!(tx.pending_count(), 1);
}
