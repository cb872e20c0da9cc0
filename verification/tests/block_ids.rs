use wfb_rs::block_id::BlockId;

fn id(value: u8) -> BlockId {
    BlockId::new(value)
}

#[test]
fn next_counts_up_and_wraps() {
    assert_eq!(id(0).next(), id(1));
    assert_eq!(id(254).next(), id(255));
    assert_eq!(id(255).next(), id(0));
}

#[test]
fn forward_distance_counts_with_wraparound() {
    assert_eq!(id(10).forward_distance(id(10)), 0);
    assert_eq!(id(10).forward_distance(id(13)), 3);
    assert_eq!(id(250).forward_distance(id(4)), 10);
    assert_eq!(id(4).forward_distance(id(250)), 246);
}

#[test]
fn distance_is_the_shorter_arc() {
    assert_eq!(id(0).distance(id(0)), 0);
    assert_eq!(id(250).distance(id(4)), 10);
    assert_eq!(id(4).distance(id(250)), 10);
    assert_eq!(id(0).distance(id(128)), 128);
    assert_eq!(id(1).distance(id(130)), 127);
}

#[test]
fn window_around_the_middle() {
    let center = id(100);
    assert!(center.in_window(id(100)));
    assert!(center.in_window(id(37)));
    assert!(center.in_window(id(163)));
    assert!(!center.in_window(id(36)));
    assert!(!center.in_window(id(164)));
    assert!(!center.in_window(id(0)));
    assert!(!center.in_window(id(255)));
}

#[test]
fn window_wraps_around_zero() {
    let center = id(0);
    assert!(center.in_window(id(0)));
    assert!(center.in_window(id(63)));
    assert!(!center.in_window(id(64)));
    assert!(center.in_window(id(193)));
    assert!(!center.in_window(id(192)));
    assert!(center.in_window(id(255)));
    assert!(!center.in_window(id(128)));
}

#[test]
fn window_at_the_edges_of_wrapping() {
    assert!(id(63).in_window(id(0)));
    assert!(id(63).in_window(id(126)));
    assert!(!id(63).in_window(id(127)));
    assert!(!id(63).in_window(id(255)));
    assert!(id(64).in_window(id(1)));
    assert!(!id(64).in_window(id(0)));
    assert!(id(64).in_window(id(127)));
    assert!(!id(64).in_window(id(128)));
    assert!(id(192).in_window(id(255)));
    assert!(!id(192).in_window(id(0)));
    assert!(id(192).in_window(id(129)));
    assert!(!id(192).in_window(id(128)));
    assert!(id(191).in_window(id(254)));
    assert!(!id(191).in_window(id(255)));
}

#[test]
fn window_is_circular_distance_below_64() {
    for center in 0..=255u8 {
        let mut inside = 0;
        for other in 0..=255u8 {
            let within = id(center).in_window(id(other));
            assert_eq!(within, id(center).distance(id(other)) < 64);
            assert_eq!(within, id(other).in_window(id(center)));
            if within {
                inside += 1;
            }
        }
        assert_eq!(inside, 127);
    }
}
