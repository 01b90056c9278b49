use mdf4_rs::ethernet::{ethertype, EthernetFlags, EthernetFrame, MacAddress, ETH_HEADER_SIZE};

#[test]
fn test_mac_address_broadcast() {
    let broadcast = MacAddress::broadcast();
    assert!(broadcast.is_broadcast());
    assert!(broadcast.is_multicast());
    assert!(!broadcast.is_unicast());
}

#[test]
fn test_mac_address_unicast() {
    let mac = MacAddress::new([0x00, 0x11, 0x22, 0x33, 0x44, 0x55]);
    assert!(!mac.is_broadcast());
    assert!(!mac.is_multicast());
    assert!(mac.is_unicast());
}

#[test]
fn test_mac_address_multicast() {
    let mac = MacAddress::new([0x01, 0x00, 0x5E, 0x00, 0x00, 0x01]);
    assert!(mac.is_multicast());
    assert!(!mac.is_unicast());
}

#[test]
fn test_ethernet_flags() {
    let flags = EthernetFlags::tx();
    assert!(flags.is_tx());
    assert!(!flags.is_rx());

    let flags = EthernetFlags::rx();
    assert!(flags.is_rx());
    assert!(!flags.is_tx());

    let flags = EthernetFlags::default()
        .with_tx(true)
        .with_fcs_valid(true)
        .with_vlan_tagged(true);
    assert!(flags.is_tx());
    assert!(flags.fcs_valid());
    assert!(flags.has_vlan_tag());
}

#[test]
fn test_frame_to_bytes() {
    let frame = EthernetFrame::new(
        MacAddress::new([0xFF, 0xFF, 0xFF, 0xFF, 0xFF, 0xFF]),
        MacAddress::new([0x00, 0x11, 0x22, 0x33, 0x44, 0x55]),
        ethertype::IPV4,
        vec![0x45, 0x00, 0x00, 0x1C], // Minimal IP header start
    );

    let bytes = frame.to_bytes();
    assert_eq!(bytes.len(), ETH_HEADER_SIZE + 4);

    // Check destination MAC
    assert_eq!(&bytes[0..6], &[0xFF, 0xFF, 0xFF, 0xFF, 0xFF, 0xFF]);
    // Check source MAC
    assert_eq!(&bytes[6..12], &[0x00, 0x11, 0x22, 0x33, 0x44, 0x55]);
    // Check EtherType (big-endian)
    assert_eq!(&bytes[12..14], &[0x08, 0x00]);
    // Check payload
    assert_eq!(&bytes[14..], &[0x45, 0x00, 0x00, 0x1C]);
}

#[test]
fn test_frame_from_bytes() {
    let bytes = [
        // Dst MAC
        0xFF, 0xFF, 0xFF, 0xFF, 0xFF, 0xFF, // Src MAC
        0x00, 0x11, 0x22, 0x33, 0x44, 0x55, // EtherType (IPv4)
        0x08, 0x00, // Payload
        0x45, 0x00, 0x00, 0x1C,
    ];

    let frame = EthernetFrame::from_bytes(&bytes).unwrap();
    assert!(frame.dst_mac.is_broadcast());
    assert_eq!(frame.ethertype, ethertype::IPV4);
    assert_eq!(frame.payload, vec![0x45, 0x00, 0x00, 0x1C]);
}

#[test]
fn frame_test_frame_roundtrip() {
    let original = EthernetFrame::new(
        MacAddress::new([0xAA, 0xBB, 0xCC, 0xDD, 0xEE, 0xFF]),
        MacAddress::new([0x11, 0x22, 0x33, 0x44, 0x55, 0x66]),
        ethertype::ARP,
        vec![0x00, 0x01, 0x08, 0x00, 0x06, 0x04],
    );

    let bytes = original.to_bytes();
    let parsed = EthernetFrame::from_bytes(&bytes).unwrap();

    assert_eq!(parsed.dst_mac, original.dst_mac);
    assert_eq!(parsed.src_mac, original.src_mac);
    assert_eq!(parsed.ethertype, original.ethertype);
    assert_eq!(parsed.payload, original.payload);
}

#[test]
fn test_frame_with_vlan() {
    // Frame with 802.1Q VLAN tag
    let bytes = [
        // Dst MAC
        0x00, 0x11, 0x22, 0x33, 0x44, 0x55, // Src MAC
        0x66, 0x77, 0x88, 0x99, 0xAA, 0xBB, // VLAN EtherType
        0x81, 0x00, // TCI (Priority 5, VLAN 100)
        0xA0, 0x64, // Real EtherType (IPv4)
        0x08, 0x00, // Payload
        0x45, 0x00,
    ];

    let frame = EthernetFrame::from_bytes(&bytes).unwrap();
    assert_eq!(frame.ethertype, ethertype::IPV4);
    assert_eq!(frame.vlan_tci, Some(0xA064));
    assert!(frame.flags.has_vlan_tag());
}
