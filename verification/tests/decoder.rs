use wfb_rs::fec::ConfigError;
use wfb_rs::rx_fec::RXFec;
use wfb_rs::tx_fec::TXFec;

fn encoder(min_block_size: u16, packet_size: u16, repair: u32) -> TXFec {
    match TXFec::new(min_block_size, packet_size, repair) {
        Ok(tx) => tx,
        Err(e) => panic!("configuration turned down: {:?}", e),
    }
}

fn hello_world(repair: u32) -> Vec<Vec<u8>> {
    let mut tx = encoder(10, 8, repair);
    assert_eq!(tx.process_packet_fec(b"HELLO"), None);
    tx.process_packet_fec(b"WORLD").unwrap()
}

fn expected() -> Vec<Vec<u8>> {
    vec![b"HELLO".to_vec(), b"WORLD".to_vec()]
}

/// One coded packet of a block of the given identifier that will never be
/// completed: its first source symbol.
fn lone_packet(id: u8) -> Vec<u8> {
    let mut tx = encoder(1, 8, 0);
    let mut last = Vec::new();
    for _ in 0..=id {
        last = tx.process_packet_fec(b"0123456789").unwrap();
    }
    assert_eq!(last[0][4], id);
    last[0].clone()
}

#[test]
fn all_source_symbols_in_order() {
    let packets = hello_world(2);
    let mut rx = RXFec::new();
    for packet in &packets[..4] {
        assert_eq!(rx.process_fec_packet(packet), None);
        assert!(rx.has_session(0));
    }
    assert_eq!(rx.process_fec_packet(&packets[4]), Some(expected()));
    assert!(!rx.has_session(0));
    assert!(rx.is_decoded(0));
}

#[test]
fn end_to_end_scenario() {
    let packets = hello_world(2);
    assert_eq!(packets.len(), 7);
    // every way of withholding exactly two of the seven packets
    for a in 0..7 {
        for b in (a + 1)..7 {
            let mut rx = RXFec::new();
            let mut delivered = None;
            let mut fed = 0;
            for (i, packet) in packets.iter().enumerate() {
                if i == a || i == b {
                    continue;
                }
                assert_eq!(delivered, None);
                delivered = rx.process_fec_packet(packet);
                fed += 1;
            }
            assert_eq!(fed, 5);
            assert_eq!(delivered, Some(expected()), "withheld {} and {}", a, b);
        }
    }
}

#[test]
fn round_trip_in_any_order() {
    let packets = hello_world(2);
    let orders: [[usize; 5]; 4] = [[6, 5, 4, 3, 2], [5, 0, 6, 1, 4], [3, 6, 0, 5, 1], [2, 4, 6, 1, 3]];
    for order in orders {
        let mut rx = RXFec::new();
        for &i in &order[..4] {
            assert_eq!(rx.process_fec_packet(&packets[i]), None);
        }
        assert_eq!(rx.process_fec_packet(&packets[order[4]]), Some(expected()));
    }
}

#[test]
fn repair_symbols_alone_rebuild_the_block() {
    let packets = hello_world(7);
    assert_eq!(packets.len(), 12);
    let mut rx = RXFec::new();
    let mut delivered = None;
    let mut fed = 0;
    for packet in &packets[5..] {
        delivered = rx.process_fec_packet(packet);
        fed += 1;
        if delivered.is_some() {
            break;
        }
    }
    assert_eq!(delivered, Some(expected()));
    assert!(fed >= 5);
}

#[test]
fn fewer_symbols_than_the_block_has_never_suffice() {
    let packets = hello_world(2);
    for skip in 0..7 {
        let mut rx = RXFec::new();
        let mut fed = 0;
        for (i, packet) in packets.iter().enumerate() {
            if i == skip || fed == 4 {
                continue;
            }
            assert_eq!(rx.process_fec_packet(packet), None);
            fed += 1;
        }
        assert_eq!(fed, 4);
        assert!(rx.has_session(0));
        assert!(!rx.is_decoded(0));
    }
}

#[test]
fn repeated_symbols_do_not_count_twice() {
    let packets = hello_world(2);
    let mut rx = RXFec::new();
    for _ in 0..3 {
        for packet in &packets[..4] {
            assert_eq!(rx.process_fec_packet(packet), None);
        }
    }
    assert_eq!(rx.process_fec_packet(&packets[6]), Some(expected()));
}

#[test]
fn deduplication_after_decode() {
    let packets = hello_world(2);
    let mut rx = RXFec::new();
    for packet in &packets[..4] {
        assert_eq!(rx.process_fec_packet(packet), None);
    }
    assert_eq!(rx.process_fec_packet(&packets[4]), Some(expected()));
    for packet in &packets {
        assert_eq!(rx.process_fec_packet(packet), None);
        assert!(rx.is_decoded(0));
        assert!(!rx.has_session(0));
        assert_eq!(rx.session_count(), 0);
        assert_eq!(rx.decoded_count(), 1);
    }
}

#[test]
fn blocks_are_decoded_side_by_side() {
    let mut tx = encoder(10, 8, 1);
    let first = tx.process_packet_fec(b"first block").unwrap();
    let second = tx.process_packet_fec(b"second block").unwrap();
    assert_eq!(first.len(), 4 + 1);
    assert_eq!(second.len(), 5 + 1);
    let mut rx = RXFec::new();
    assert_eq!(rx.process_fec_packet(&first[0]), None);
    assert_eq!(rx.process_fec_packet(&second[0]), None);
    assert_eq!(rx.process_fec_packet(&first[1]), None);
    assert_eq!(rx.process_fec_packet(&second[1]), None);
    assert_eq!(rx.session_count(), 2);
    assert_eq!(rx.process_fec_packet(&second[2]), None);
    assert_eq!(rx.process_fec_packet(&second[3]), None);
    assert_eq!(rx.process_fec_packet(&second[5]), Some(vec![b"second block".to_vec()]));
    assert_eq!(rx.session_count(), 1);
    assert_eq!(rx.process_fec_packet(&first[4]), None);
    assert_eq!(rx.process_fec_packet(&first[2]), Some(vec![b"first block".to_vec()]));
    assert_eq!(rx.session_count(), 0);
    assert_eq!(rx.decoded_count(), 2);
}

#[test]
fn datagram_split_across_symbols_comes_back_whole() {
    let mut tx = encoder(6, 7, 2);
    assert_eq!(tx.process_packet_fec(b"a"), None);
    assert_eq!(tx.process_packet_fec(b"bb"), None);
    let packets = tx.process_packet_fec(b"ccc").unwrap();
    // 6 bytes, 4 offsets and the count: 15 bytes, 5 symbols of 3.
    assert_eq!(packets.len(), 7);
    assert_eq!(&packets[0][8..], b"abb");
    assert_eq!(&packets[1][8..], b"ccc");
    let want = vec![b"a".to_vec(), b"bb".to_vec(), b"ccc".to_vec()];
    let mut rx = RXFec::new();
    for packet in &packets[2..6] {
        assert_eq!(rx.process_fec_packet(packet), None);
    }
    assert_eq!(rx.process_fec_packet(&packets[6]), Some(want));
}

#[test]
fn large_block_survives_loss() {
    let datagrams: Vec<Vec<u8>> = (0..9u32)
        .map(|i| (0..1200u32).map(|j| ((i * 31 + j * 7) % 256) as u8).collect())
        .collect();
    let mut tx = encoder(10_000, 804, 15);
    let mut packets = None;
    for datagram in &datagrams {
        assert_eq!(packets, None);
        packets = tx.process_packet_fec(datagram);
    }
    let packets = packets.unwrap();
    // 10800 bytes, 10 offsets and the count: 10821 bytes, 14 symbols of 800.
    assert_eq!(packets.len(), 14 + 15);
    let mut rx = RXFec::new();
    let mut delivered = None;
    // every other packet is lost
    for packet in packets.iter().skip(1).step_by(2) {
        assert_eq!(delivered, None);
        delivered = rx.process_fec_packet(packet);
    }
    assert_eq!(delivered, Some(datagrams));
}

#[test]
fn short_coded_packets_are_dropped() {
    let mut rx = RXFec::new();
    assert_eq!(rx.process_fec_packet(&[]), None);
    assert_eq!(rx.process_fec_packet(&[17, 0, 8]), None);
    // parameters, but no block identifier
    assert_eq!(rx.process_fec_packet(&[17, 0, 8, 0]), None);
    // a block identifier, but not a whole tag
    assert_eq!(rx.process_fec_packet(&[17, 0, 8, 0, 3]), None);
    assert_eq!(rx.process_fec_packet(&[17, 0, 8, 0, 3, 0, 0]), None);
    // a tag, but no symbol
    assert_eq!(rx.process_fec_packet(&[17, 0, 8, 0, 3, 0, 0, 0]), None);
    assert_eq!(rx.session_count(), 0);
    assert_eq!(rx.decoded_count(), 0);
}

#[test]
fn packets_of_the_wrong_length_are_dropped() {
    let packets = hello_world(2);
    let mut rx = RXFec::new();
    let mut long = packets[0].clone();
    long.push(0);
    assert_eq!(rx.process_fec_packet(&long), None);
    assert!(!rx.has_session(0));
    let short = &packets[0][..11];
    assert_eq!(rx.process_fec_packet(short), None);
    assert!(!rx.has_session(0));
    assert_eq!(rx.process_fec_packet(&packets[0]), None);
    assert!(rx.has_session(0));
    // a packet that states other parameters than the block was opened with
    let mut other = vec![17, 0, 9, 0];
    other.extend_from_slice(&[0, 0, 0, 1, 1, 2, 3, 4, 5]);
    assert_eq!(rx.process_fec_packet(&other), None);
    for packet in &packets[1..4] {
        assert_eq!(rx.process_fec_packet(packet), None);
    }
    assert_eq!(rx.process_fec_packet(&packets[4]), Some(expected()));
}

#[test]
fn parameters_that_describe_no_block_are_dropped() {
    let mut rx = RXFec::new();
    // packet size 4 leaves no symbol
    assert_eq!(rx.process_fec_packet(&[17, 0, 4, 0, 0, 0, 0, 0]), None);
    // block size 0
    assert_eq!(rx.process_fec_packet(&[0, 0, 8, 0, 0, 0, 0, 0, 1, 2, 3, 4]), None);
    // 65535 symbols of one byte
    assert_eq!(rx.process_fec_packet(&[255, 255, 5, 0, 0, 0, 0, 0, 1]), None);
    assert_eq!(rx.session_count(), 0);
}

#[test]
fn block_with_a_broken_directory_delivers_nothing() {
    // one symbol of 4 bytes that is the whole block: count 9 in a block of 4
    let mut rx = RXFec::new();
    assert_eq!(rx.process_fec_packet(&[4, 0, 8, 0, 5, 0, 0, 0, 1, 2, 3, 9]), None);
    assert!(rx.is_decoded(5));
    assert!(!rx.has_session(5));
}

#[test]
fn hand_made_block_is_delivered() {
    // block "hi", one byte of padding, offsets 0 and 2, count 2, in two symbols of 4
    let mut rx = RXFec::new();
    assert_eq!(rx.process_fec_packet(&[7, 0, 8, 0, 9, 0, 0, 1, 0, 2, 0, 2]), None);
    assert_eq!(
        rx.process_fec_packet(&[7, 0, 8, 0, 9, 0, 0, 0, b'h', b'i', 0, 0]),
        Some(vec![b"hi".to_vec()])
    );
}

#[test]
fn eviction_after_64_blocks() {
    let mut rx = RXFec::new();
    assert_eq!(rx.process_fec_packet(&lone_packet(10)), None);
    assert!(rx.has_session(10));
    for id in 11..74u8 {
        assert_eq!(rx.process_fec_packet(&lone_packet(id)), None);
        assert!(rx.has_session(10), "block 10 gone at block {}", id);
    }
    assert_eq!(rx.session_count(), 64);
    assert_eq!(rx.process_fec_packet(&lone_packet(74)), None);
    assert!(!rx.has_session(10));
    assert!(rx.has_session(11));
    assert!(rx.has_session(74));
    assert_eq!(rx.session_count(), 64);
}

#[test]
fn eviction_wraps_around() {
    let mut rx = RXFec::new();
    assert_eq!(rx.process_fec_packet(&lone_packet(250)), None);
    assert_eq!(rx.process_fec_packet(&lone_packet(200)), None);
    assert_eq!(rx.process_fec_packet(&lone_packet(5)), None);
    assert!(rx.has_session(250));
    assert!(rx.has_session(200));
    assert!(rx.has_session(5));
    // 200 is 70 steps behind 14, 250 is 20 behind
    assert_eq!(rx.process_fec_packet(&lone_packet(14)), None);
    assert!(rx.has_session(250));
    assert!(!rx.has_session(200));
    assert!(rx.has_session(5));
    assert!(rx.has_session(14));
}

#[test]
fn eviction_drops_recovered_marks_too() {
    let packets = hello_world(0);
    let mut rx = RXFec::new();
    for packet in &packets[..4] {
        assert_eq!(rx.process_fec_packet(packet), None);
    }
    assert_eq!(rx.process_fec_packet(&packets[4]), Some(expected()));
    assert!(rx.is_decoded(0));
    assert_eq!(rx.process_fec_packet(&lone_packet(63)), None);
    assert!(rx.is_decoded(0));
    assert_eq!(rx.process_fec_packet(&lone_packet(64)), None);
    assert!(!rx.is_decoded(0));
    // the identifier can be used again
    for packet in &packets[..4] {
        assert_eq!(rx.process_fec_packet(packet), None);
    }
    assert_eq!(rx.process_fec_packet(&packets[4]), Some(expected()));
}

#[test]
fn completed_block_evicts_as_well() {
    let mut rx = RXFec::new();
    assert_eq!(rx.process_fec_packet(&lone_packet(100)), None);
    // block 200 completes with its only packet: one offset, no datagram
    assert_eq!(
        rx.process_fec_packet(&[4, 0, 8, 0, 200, 0, 0, 0, b'x', 0, 0, 1]),
        Some(vec![])
    );
    assert!(!rx.has_session(100));
    assert!(rx.is_decoded(200));
}

#[test]
fn dropped_packet_evicts_nothing() {
    let packets = hello_world(0);
    let mut rx = RXFec::new();
    for packet in &packets {
        rx.process_fec_packet(packet);
    }
    assert!(rx.is_decoded(0));
    assert_eq!(rx.process_fec_packet(&lone_packet(100)), None);
    assert!(!rx.is_decoded(0));
    assert!(rx.has_session(100));
    assert_eq!(rx.process_fec_packet(&lone_packet(130)), None);
    // a packet of the wrong length for block 230 is dropped before it evicts
    assert_eq!(rx.process_fec_packet(&[17, 0, 8, 0, 230, 0, 0, 0]), None);
    assert!(rx.has_session(100));
    assert!(rx.has_session(130));
    assert_eq!(rx.session_count(), 2);
}

#[test]
fn memory_stays_bounded_over_many_blocks() {
    let mut tx = encoder(1, 8, 0);
    let mut rx = RXFec::new();
    for _ in 0..1000 {
        let packets = tx.process_packet_fec(b"0123456789").unwrap();
        assert_eq!(rx.process_fec_packet(&packets[0]), None);
        assert!(rx.session_count() <= 64);
        assert_eq!(rx.decoded_count(), 0);
    }
    assert_eq!(rx.session_count(), 64);
}

#[test]
fn many_blocks_in_a_row_are_all_delivered() {
    let mut tx = encoder(4, 8, 1);
    let mut rx = RXFec::new();
    for round in 0..700u32 {
        let datagram = round.to_le_bytes().to_vec();
        let packets = tx.process_packet_fec(&datagram).unwrap();
        // 4 bytes, 2 offsets and the count: 9 bytes, 3 symbols of 4; one is lost
        assert_eq!(packets.len(), 4);
        let lost = (round % 4) as usize;
        let mut delivered = None;
        for (i, packet) in packets.iter().enumerate() {
            if i != lost {
                delivered = rx.process_fec_packet(packet);
            }
        }
        assert_eq!(delivered, Some(vec![datagram]), "round {}", round);
        assert!(rx.decoded_count() <= 64);
        assert_eq!(rx.session_count(), 0);
    }
}

#[test]
fn fixed_parameters_round_trip() {
    let mut tx = match TXFec::new_static(10, 40, 12, 2) {
        Ok(tx) => tx,
        Err(e) => panic!("configuration turned down: {:?}", e),
    };
    let mut rx = match RXFec::new_static(40, 12) {
        Ok(rx) => rx,
        Err(e) => panic!("configuration turned down: {:?}", e),
    };
    assert_eq!(tx.process_packet_fec(b"HELLO"), None);
    let packets = tx.process_packet_fec(b"WORLD").unwrap();
    assert_eq!(packets.len(), 7);
    assert_eq!(rx.process_fec_packet(&packets[6]), None);
    assert_eq!(rx.process_fec_packet(&packets[1]), None);
    assert_eq!(rx.process_fec_packet(&packets[5]), None);
    assert_eq!(rx.process_fec_packet(&packets[3]), None);
    assert_eq!(rx.process_fec_packet(&packets[0]), Some(expected()));
}

#[test]
fn fixed_parameters_must_describe_a_block() {
    let error_of = |made: Result<RXFec, ConfigError>| match made {
        Ok(_) => None,
        Err(e) => Some(e),
    };
    assert_eq!(error_of(RXFec::new_static(40, 4)), Some(ConfigError::PacketSizeTooSmall));
    assert_eq!(error_of(RXFec::new_static(0, 12)), Some(ConfigError::BlockSizeTooSmall));
    assert_eq!(error_of(RXFec::new_static(4, 12)), Some(ConfigError::BlockSizeTooSmall));
    assert_eq!(error_of(RXFec::new_static(5, 12)), None);
    assert_eq!(error_of(RXFec::new_static(60_000, 5)), Some(ConfigError::TooManySymbols));
    assert_eq!(error_of(RXFec::new_static(9600, 804)), None);
}

#[test]
fn as_many_symbols_as_the_block_has_usually_suffice() {
    // a block of 7 source symbols with 40 repair symbols; for every single
    // source symbol lost, count the repair symbols that make up for it alone
    let mut tx = encoder(1, 8, 40);
    let data: Vec<u8> = (0..20u8).collect();
    let packets = tx.process_packet_fec(&data).unwrap();
    assert_eq!(packets.len(), 7 + 40);
    let mut good = 0;
    let mut bad = 0;
    for lost in 0..7 {
        for repair in 7..47 {
            let mut rx = RXFec::new();
            let mut delivered = None;
            for (i, packet) in packets.iter().enumerate() {
                if (i < 7 && i != lost) || i == repair {
                    assert_eq!(delivered, None);
                    delivered = rx.process_fec_packet(packet);
                }
            }
            match delivered {
                Some(datagrams) => {
                    assert_eq!(datagrams, vec![data.clone()]);
                    good += 1;
                }
                None => bad += 1,
            }
        }
    }
    assert_eq!(good + bad, 280);
    assert!(good >= 270, "{} of 280", good);
}

#[test]
fn one_symbol_more_makes_up_for_an_unlucky_choice() {
    // a block of 2 source symbols; the first of them and repair symbol 16
    // are two symbols from which the code cannot rebuild the block
    let mut tx = encoder(1, 8, 40);
    let packets = tx.process_packet_fec(&[3]).unwrap();
    assert_eq!(packets.len(), 2 + 40);
    assert_eq!(&packets[18][4..8], &[0, 0, 0, 18]);
    let mut rx = RXFec::new();
    assert_eq!(rx.process_fec_packet(&packets[0]), None);
    assert_eq!(rx.process_fec_packet(&packets[18]), None);
    assert!(rx.has_session(0));
    assert_eq!(rx.process_fec_packet(&packets[19]), Some(vec![vec![3]]));
    assert!(rx.is_decoded(0));
}

#[test]
fn first_copy_of_a_symbol_counts() {
    // block "AAA", offsets 0 and 3, count 2, in two symbols of 4
    let mut rx = RXFec::new();
    assert_eq!(rx.process_fec_packet(&[8, 0, 8, 0, 1, 0, 0, 0, b'A', b'A', b'A', 0]), None);
    assert_eq!(rx.process_fec_packet(&[8, 0, 8, 0, 1, 0, 0, 0, b'B', b'B', b'B', 0]), None);
    assert_eq!(
        rx.process_fec_packet(&[8, 0, 8, 0, 1, 0, 0, 1, 0, 3, 0, 2]),
        Some(vec![b"AAA".to_vec()])
    );
}

#[test]
fn source_symbols_suffice_whatever_else_arrived() {
    // a block of 2 source symbols; its first source symbol and repair symbol
    // 16 do not rebuild it, so the repair symbol, here made of noise, is still
    // at hand when the second source symbol arrives
    let mut tx = encoder(1, 8, 40);
    let packets = tx.process_packet_fec(&[3]).unwrap();
    let mut noise = packets[18].clone();
    for byte in &mut noise[8..] {
        *byte ^= 0x5a;
    }
    let mut rx = RXFec::new();
    assert_eq!(rx.process_fec_packet(&noise), None);
    assert_eq!(rx.process_fec_packet(&packets[0]), None);
    assert_eq!(rx.process_fec_packet(&packets[1]), Some(vec![vec![3]]));
}

#[test]
fn different_symbols_are_counted_not_packets() {
    // a block of 5 source symbols: a decoder that has seen the same two
    // symbols many times has seen two symbols
    let packets = hello_world(2);
    let mut rx = RXFec::new();
    for _ in 0..10 {
        assert_eq!(rx.process_fec_packet(&packets[5]), None);
        assert_eq!(rx.process_fec_packet(&packets[1]), None);
    }
    assert!(rx.has_session(0));
    assert_eq!(rx.process_fec_packet(&packets[0]), None);
    assert_eq!(rx.process_fec_packet(&packets[6]), None);
    assert_eq!(rx.process_fec_packet(&packets[3]), Some(expected()));
}

#[test]
fn symbol_numbers_out_of_bounds_are_dropped() {
    let mut rx = RXFec::new();
    // symbol number 2^20
    assert_eq!(rx.process_fec_packet(&[8, 0, 8, 0, 1, 0x10, 0, 0, 1, 2, 3, 4]), None);
    assert!(!rx.has_session(1));
    assert_eq!(rx.process_fec_packet(&[8, 0, 8, 0, 1, 0xff, 0xff, 0xff, 1, 2, 3, 4]), None);
    assert!(!rx.has_session(1));
    // symbol number 2^20 - 1
    assert_eq!(rx.process_fec_packet(&[8, 0, 8, 0, 1, 0x0f, 0xff, 0xff, 1, 2, 3, 4]), None);
    assert!(rx.has_session(1));
    assert_eq!(rx.process_fec_packet(&[8, 0, 8, 0, 1, 0x10, 0, 0, 1, 2, 3, 4]), None);
    assert!(rx.has_session(1));
}

#[test]
fn high_symbol_number_does_not_reach_the_solver() {
    // 988 of the 989 source symbols of a block, then a repair symbol whose
    // number is above three million
    let mut rx = RXFec::new();
    let block_size: u16 = 989 * 4;
    let header = [block_size as u8, (block_size >> 8) as u8, 8, 0];
    for number in 0..988u32 {
        let mut packet = header.to_vec();
        packet.extend_from_slice(&[1, 0, (number >> 8) as u8, number as u8, 1, 2, 3, 4]);
        assert_eq!(rx.process_fec_packet(&packet), None);
    }
    let number: u32 = 3_158_229;
    let mut packet = header.to_vec();
    packet.extend_from_slice(&[1, (number >> 16) as u8, (number >> 8) as u8, number as u8]);
    packet.extend_from_slice(&[1, 2, 3, 4]);
    assert_eq!(rx.process_fec_packet(&packet), None);
    assert!(rx.has_session(1));
    assert!(!rx.is_decoded(1));
}

#[test]
fn block_of_three_hundred_symbols_survives_loss() {
    let datagrams: Vec<Vec<u8>> = (0..11u32)
        .map(|i| (0..100u32).map(|j| ((i * 13 + j * 5) % 256) as u8).collect())
        .collect();
    let mut tx = encoder(1_100, 8, 12);
    let mut packets = None;
    for datagram in &datagrams {
        assert_eq!(packets, None);
        packets = tx.process_packet_fec(datagram);
    }
    let packets = packets.unwrap();
    // 1100 bytes, 12 offsets and the count: 1125 bytes, 282 symbols of 4.
    assert_eq!(packets.len(), 282 + 12);
    let mut rx = RXFec::new();
    let mut delivered = None;
    for (i, packet) in packets.iter().enumerate() {
        // every fiftieth packet is lost
        if i % 50 == 7 {
            continue;
        }
        assert_eq!(delivered, None);
        delivered = rx.process_fec_packet(packet);
        if delivered.is_some() {
            break;
        }
    }
    assert_eq!(delivered, Some(datagrams));
}
