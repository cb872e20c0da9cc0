use wfb_rs::directory::append_directory;
use wfb_rs::directory::build_packets;

fn block_of(datagrams: &[&[u8]], padding: usize) -> Vec<u8> {
    let mut block = Vec::new();
    let mut offsets: Vec<u16> = vec![0];
    for datagram in datagrams {
        block.extend_from_slice(datagram);
        offsets.push(block.len() as u16);
    }
    block.extend(std::iter::repeat(0u8).take(padding));
    append_directory(&mut block, &offsets);
    block
}

#[test]
fn directory_bytes_are_offsets_then_count() {
    let mut block = b"abbccc".to_vec();
    append_directory(&mut block, &vec![0, 1, 3, 6]);
    assert_eq!(block, vec![b'a', b'b', b'b', b'c', b'c', b'c', 0, 0, 1, 0, 3, 0, 6, 0, 4]);
}

#[test]
fn directory_offsets_are_little_endian() {
    let mut block = Vec::new();
    append_directory(&mut block, &vec![0, 0x0102]);
    assert_eq!(block, vec![0, 0, 2, 1, 2]);
}

#[test]
fn directory_reconstruction() {
    let block = vec![b'a', b'b', b'b', b'c', b'c', b'c', 0, 0, 1, 0, 3, 0, 6, 0, 4];
    assert_eq!(
        build_packets(&block),
        Some(vec![b"a".to_vec(), b"bb".to_vec(), b"ccc".to_vec()])
    );
}

#[test]
fn directory_reconstruction_with_padding() {
    for padding in 0..9 {
        let block = block_of(&[b"a", b"bb", b"ccc"], padding);
        assert_eq!(block.len(), 6 + padding + 9);
        assert_eq!(
            build_packets(&block),
            Some(vec![b"a".to_vec(), b"bb".to_vec(), b"ccc".to_vec()])
        );
    }
}

#[test]
fn directory_keeps_empty_datagrams() {
    let block = block_of(&[b"", b"x", b"", b""], 3);
    assert_eq!(
        build_packets(&block),
        Some(vec![vec![], b"x".to_vec(), vec![], vec![]])
    );
}

#[test]
fn directory_of_a_long_datagram() {
    let long: Vec<u8> = (0..60_000u32).map(|i| (i % 251) as u8).collect();
    let block = block_of(&[b"head", &long, b"tail"], 17);
    assert_eq!(
        build_packets(&block),
        Some(vec![b"head".to_vec(), long.clone(), b"tail".to_vec()])
    );
}

#[test]
fn directory_of_254_datagrams() {
    let datagrams: Vec<Vec<u8>> = (0..254u32).map(|i| vec![i as u8; (i % 5) as usize]).collect();
    let refs: Vec<&[u8]> = datagrams.iter().map(|d| d.as_slice()).collect();
    let block = block_of(&refs, 2);
    assert_eq!(*block.last().unwrap(), 255);
    assert_eq!(build_packets(&block), Some(datagrams));
}

#[test]
fn empty_block_has_no_datagrams() {
    assert_eq!(build_packets(&[]), None);
}

#[test]
fn count_of_zero_or_one_gives_no_datagrams() {
    assert_eq!(build_packets(&[0]), Some(vec![]));
    assert_eq!(build_packets(&[7, 7, 7, 0]), Some(vec![]));
    assert_eq!(build_packets(&[7, 7, 1, 0, 1]), Some(vec![]));
}

#[test]
fn count_larger_than_block_is_rejected() {
    assert_eq!(build_packets(&[1]), None);
    assert_eq!(build_packets(&[0, 2]), None);
    assert_eq!(build_packets(&[0, 0, 0, 2]), None);
    assert_eq!(build_packets(&[255; 100]), None);
}

#[test]
fn offsets_stepping_backwards_are_rejected() {
    // data "abcd", offsets 3 then 1
    assert_eq!(build_packets(&[b'a', b'b', b'c', b'd', 3, 0, 1, 0, 2]), None);
    // offsets 0, 3, 2
    assert_eq!(build_packets(&[b'a', b'b', b'c', b'd', 0, 0, 3, 0, 2, 0, 3]), None);
}

#[test]
fn offsets_past_the_end_are_rejected() {
    // data "abcd" and two offsets make a body of 8 bytes; 9 points past it
    assert_eq!(build_packets(&[b'a', b'b', b'c', b'd', 0, 0, 9, 0, 2]), None);
    assert_eq!(build_packets(&[b'a', b'b', b'c', b'd', 0, 0, 0, 1, 2]), None);
}

#[test]
fn offsets_need_not_start_at_zero() {
    assert_eq!(
        build_packets(&[b'a', b'b', b'c', b'd', 1, 0, 3, 0, 2]),
        Some(vec![b"bc".to_vec()])
    );
}
