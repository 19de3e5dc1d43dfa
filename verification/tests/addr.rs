use proxy_bridge::addr::{
    format_ip, ip_from_octets, is_broadcast_or_multicast, octets_of, u16_from_be,
};

#[test]
fn test_format_ip() {
    let ip = 192 | (168 << 8) | (1 << 16) | (100 << 24);
    assert_eq!(format_ip(ip), "192.168.1.100");
}

#[test]
fn test_is_broadcast_or_multicast() {
    let loopback = 127 | (0 << 8) | (0 << 16) | (1 << 24); // 127.0.0.1
    assert!(is_broadcast_or_multicast(loopback));

    let multicast = 224 | (0 << 8) | (0 << 16) | (1 << 24); // 224.0.0.1
    assert!(is_broadcast_or_multicast(multicast));

    let normal = 8 | (8 << 8) | (8 << 16) | (8 << 24); // 8.8.8.8
    assert!(!is_broadcast_or_multicast(normal));
}

#[test]
fn octets_stand_in_the_order_of_the_dotted_form() {
    let ip = ip_from_octets(10, 20, 30, 40);
    assert_eq!(ip, 0x281e140a);
    assert_eq!(octets_of(ip), [10, 20, 30, 40]);
    assert_eq!(format_ip(ip), "10.20.30.40");
    assert_eq!(format_ip(0), "0.0.0.0");
    assert_eq!(format_ip(u32::MAX), "255.255.255.255");
}

#[test]
fn ports_are_in_network_byte_order() {
    assert_eq!(u16_from_be(0x12, 0x34), 0x1234);
    for port in [0u16, 1, 80, 443, 8080, 65535] {
        let b = port.to_be_bytes();
        assert_eq!(u16_from_be(b[0], b[1]), port);
    }
}

#[test]
fn local_and_group_addresses() {
    assert!(is_broadcast_or_multicast(ip_from_octets(169, 254, 3, 4)));
    assert!(!is_broadcast_or_multicast(ip_from_octets(169, 253, 3, 4)));
    assert!(is_broadcast_or_multicast(ip_from_octets(192, 168, 1, 255)));
    assert!(is_broadcast_or_multicast(ip_from_octets(255, 255, 255, 255)));
    assert!(is_broadcast_or_multicast(ip_from_octets(239, 1, 1, 1)));
    assert!(!is_broadcast_or_multicast(ip_from_octets(240, 1, 1, 1)));
    assert!(!is_broadcast_or_multicast(ip_from_octets(223, 1, 1, 1)));
}
