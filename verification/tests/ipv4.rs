use std::collections::HashSet;
use wire::ip::IPAddress;
use wire::ipv4::Address;

#[test]
fn test_new() {
    let addr = Address::new(192, 168, 0, 1);
    assert_eq!(addr.0, [192, 168, 0, 1]);
}

#[test]
fn test_from_bytes() {
    let bytes = [10, 0, 0, 1];
    let addr = Address::from_bytes(&bytes);
    assert_eq!(addr.0, bytes);
}

#[test]
fn test_as_bytes() {
    let addr = Address::new(172, 16, 0, 1);
    assert_eq!(addr.as_bytes(), &[172, 16, 0, 1]);
}

#[test]
fn test_constants() {
    assert_eq!(Address::VERSION, 4);
    assert_eq!(Address::unspecified(), Address([0, 0, 0, 0]));
    assert_eq!(Address::broadcast(), Address([255, 255, 255, 255]));
    assert_eq!(Address::multicast_all_systems(), Address([224, 0, 0, 1]));
    assert_eq!(Address::multicast_all_routers(), Address([224, 0, 0, 2]));
}

#[test]
fn test_is_unicast() {
    assert!(Address::new(192, 168, 1, 1).is_unicast());
    assert!(!Address::unspecified().is_unicast());
    assert!(!Address::broadcast().is_unicast());
    assert!(!Address::multicast_all_systems().is_unicast());
}

#[test]
fn test_is_multicast() {
    assert!(Address::multicast_all_systems().is_multicast());
    assert!(Address::new(224, 0, 0, 5).is_multicast());
    assert!(!Address::new(192, 168, 1, 1).is_multicast());
}

#[test]
fn test_is_broadcast() {
    assert!(Address::broadcast().is_broadcast());
    assert!(!Address::new(192, 168, 1, 255).is_broadcast());
}

#[test]
fn test_is_unspecified() {
    assert!(Address::unspecified().is_unspecified());
    assert!(!Address::new(0, 0, 0, 1).is_unspecified());
}

#[test]
fn test_is_loopback() {
    assert!(Address::new(127, 0, 0, 1).is_loopback());
    assert!(!Address::new(192, 168, 1, 1).is_loopback());
}

#[test]
fn test_is_link_local() {
    assert!(Address::new(169, 254, 0, 1).is_link_local());
    assert!(!Address::new(192, 168, 1, 1).is_link_local());
}

#[test]
fn test_display() {
    let addr = Address::new(192, 168, 0, 1);
    assert_eq!(addr.to_string(), "192.168.0.1");
}

#[test]
fn test_ord() {
    let addr1 = Address::new(10, 0, 0, 1);
    let addr2 = Address::new(10, 0, 0, 2);
    let addr3 = Address::new(192, 168, 1, 1);

    assert!(addr1 < addr2);
    assert!(addr2 < addr3);
    assert!(addr1 < addr3);
}

#[test]
fn test_clone_and_eq() {
    let addr1 = Address::new(192, 168, 1, 1);
    let addr2 = addr1.clone();

    assert_eq!(addr1, addr2);
}

#[test]
fn test_hash() {
    let mut set = HashSet::new();
    set.insert(Address::new(192, 168, 1, 1));
    set.insert(Address::new(10, 0, 0, 1));

    assert!(set.contains(&Address::new(192, 168, 1, 1)));
    assert!(!set.contains(&Address::new(172, 16, 0, 1)));
}

#[test]
fn test_bytes_round_trip() {
    for a in [
        Address::new(0, 0, 0, 0),
        Address::new(1, 2, 3, 4),
        Address::new(255, 0, 255, 0),
        Address::new(255, 255, 255, 255),
    ] {
        assert_eq!(Address::from_bytes(a.as_bytes()), a);
        assert_eq!(a.as_bytes().len(), 4);
    }
}

#[test]
fn test_exactly_one_class() {
    let samples = [
        Address::new(0, 0, 0, 0),
        Address::new(0, 0, 0, 1),
        Address::new(10, 1, 2, 3),
        Address::new(127, 0, 0, 1),
        Address::new(169, 254, 7, 7),
        Address::new(223, 255, 255, 255),
        Address::new(224, 0, 0, 0),
        Address::new(239, 255, 255, 255),
        Address::new(240, 0, 0, 0),
        Address::new(255, 255, 255, 254),
        Address::new(255, 255, 255, 255),
    ];
    for a in samples {
        let classes = [a.is_unicast(), a.is_broadcast(), a.is_multicast(), a.is_unspecified()];
        assert_eq!(classes.iter().filter(|c| **c).count(), 1);
    }
}

#[test]
fn test_multicast_range_edges() {
    assert!(!Address::new(223, 255, 255, 255).is_multicast());
    assert!(Address::new(224, 0, 0, 0).is_multicast());
    assert!(Address::new(239, 255, 255, 255).is_multicast());
    assert!(!Address::new(240, 0, 0, 0).is_multicast());
    assert!(Address::new(223, 0, 0, 1).is_unicast());
    assert!(Address::new(240, 0, 0, 1).is_unicast());
}

#[test]
fn test_broadcast_needs_every_byte() {
    assert!(!Address::new(0, 255, 255, 255).is_broadcast());
    assert!(!Address::new(255, 0, 255, 255).is_broadcast());
    assert!(!Address::new(255, 255, 0, 255).is_broadcast());
    assert!(!Address::new(255, 255, 255, 0).is_broadcast());
}

#[test]
fn test_unspecified_needs_every_byte() {
    assert!(!Address::new(1, 0, 0, 0).is_unspecified());
    assert!(!Address::new(0, 1, 0, 0).is_unspecified());
    assert!(!Address::new(0, 0, 1, 0).is_unspecified());
}

#[test]
fn test_loopback_and_link_local_ranges() {
    assert!(Address::new(127, 255, 255, 255).is_loopback());
    assert!(!Address::new(126, 0, 0, 1).is_loopback());
    assert!(!Address::new(128, 0, 0, 1).is_loopback());
    assert!(Address::new(169, 254, 255, 255).is_link_local());
    assert!(!Address::new(169, 253, 0, 1).is_link_local());
    assert!(!Address::new(168, 254, 0, 1).is_link_local());
    assert!(!Address::new(254, 169, 0, 1).is_link_local());
}

#[test]
fn test_to_string_digit_counts() {
    assert_eq!(Address::new(0, 0, 0, 0).to_string(), "0.0.0.0");
    assert_eq!(Address::new(255, 255, 255, 255).to_string(), "255.255.255.255");
    assert_eq!(Address::new(1, 20, 100, 9).to_string(), "1.20.100.9");
    assert_eq!(Address::new(10, 99, 101, 200).to_string(), "10.99.101.200");
    assert_eq!(Address::new(127, 0, 0, 1).to_string(), "127.0.0.1");
}

#[test]
fn test_to_string_matches_std_for_every_octet() {
    for n in 0..=255u8 {
        let want = format!("{}.{}.{}.{}", n, 255 - n, n, 0);
        assert_eq!(Address::new(n, 255 - n, n, 0).to_string(), want);
    }
}

#[test]
fn test_order_is_big_endian_numeric() {
    let samples = [
        Address::new(0, 0, 0, 0),
        Address::new(0, 0, 1, 0),
        Address::new(0, 0, 0, 255),
        Address::new(1, 0, 0, 0),
        Address::new(10, 0, 0, 1),
        Address::new(10, 0, 0, 2),
        Address::new(192, 168, 1, 1),
        Address::new(255, 255, 255, 255),
    ];
    for a in samples {
        for b in samples {
            let x = u32::from_be_bytes(a.0);
            let y = u32::from_be_bytes(b.0);
            assert_eq!(a < b, x < y);
            assert_eq!(a <= b, x <= y);
            assert_eq!(a > b, x > y);
            assert_eq!(a == b, x == y);
            assert_eq!(a.partial_cmp(&b), Some(x.cmp(&y)));
            assert_eq!(a.cmp(&b), x.cmp(&y));
        }
    }
}

#[test]
fn test_prefix_len_of_addresses() {
    assert_eq!(Address::new(0, 0, 0, 0).prefix_len(), Some(0));
    assert_eq!(Address::new(255, 255, 255, 255).prefix_len(), Some(32));
    assert_eq!(Address::new(255, 255, 255, 0).prefix_len(), Some(24));
    assert_eq!(Address::new(255, 255, 240, 0).prefix_len(), Some(20));
    assert_eq!(Address::new(128, 0, 0, 0).prefix_len(), Some(1));
    assert_eq!(Address::new(255, 255, 255, 254).prefix_len(), Some(31));
    assert_eq!(Address::new(255, 0, 255, 0).prefix_len(), None);
    assert_eq!(Address::new(0, 0, 0, 1).prefix_len(), None);
    assert_eq!(Address::new(192, 168, 0, 1).prefix_len(), None);
    assert_eq!(Address::new(127, 255, 255, 255).prefix_len(), None);
}
