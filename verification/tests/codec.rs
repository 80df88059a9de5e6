//! The frame codec: parsing, serializing, tagging.

use blair_switch::network::frame::{Frame, FrameError, Mac, Tag};

fn sample_payload() -> Vec<u8> {
    vec![0xDE, 0xAD, 0xBE, 0xEF]
}

fn untagged_bytes() -> Vec<u8> {
    let mut b = vec![
        0x11, 0x22, 0x33, 0x44, 0x55, 0x66, // dst
        0xAA, 0xBB, 0xCC, 0xDD, 0xEE, 0xFF, // src
        0x08, 0x00, // EtherType IPv4
    ];
    b.extend(sample_payload());
    b
}

fn tagged_bytes(vlan: u16) -> Vec<u8> {
    let mut b = vec![
        0x11, 0x22, 0x33, 0x44, 0x55, 0x66, // dst
        0xAA, 0xBB, 0xCC, 0xDD, 0xEE, 0xFF, // src
        0x81, 0x00, // 802.1Q TPID
        (vlan >> 8) as u8,
        vlan as u8, // TCI: pcp 0, dei 0
        0x08, 0x00, // real EtherType
    ];
    b.extend(sample_payload());
    b
}

#[test]
fn tag_parse_reads_big_endian_words() {
    let t = Tag::parse(&[0x81, 0x00, 0x30, 0x0A]);
    assert_eq!(t.tpid, 0x8100);
    assert_eq!(t.tci, 0x300A);
}

#[test]
fn tag_build_packs_fields() {
    let t = Tag::build(5, true, 300);
    assert_eq!(t.tpid, 0x8100);
    assert_eq!(t.tci, (5u16 << 13) | 0x1000 | 300);
}

#[test]
fn tag_build_from_u16_is_verbatim() {
    let t = Tag::build_from_u16(0x88A8, 0x0123);
    assert_eq!(t.tpid, 0x88A8);
    assert_eq!(t.tci, 0x0123);
}

#[test]
fn parse_untagged_frame() {
    let b = untagged_bytes();
    let f = Frame::parse(&b, b.len(), None).unwrap();
    assert_eq!(f.dst_mac, Mac::new(0x11, 0x22, 0x33, 0x44, 0x55, 0x66));
    assert_eq!(f.src_mac, Mac::new(0xAA, 0xBB, 0xCC, 0xDD, 0xEE, 0xFF));
    assert!(f.tag.is_none());
    assert_eq!(f.ether_type, 0x0800);
    assert_eq!(f.data, sample_payload());
    assert_eq!(f.get_vlan(), 0);
    assert!(!f.is_broadcast());
    assert_eq!(f.get_eth_type(), "IPv4");
}

#[test]
fn parse_inline_tagged_frame() {
    let b = tagged_bytes(42);
    let f = Frame::parse(&b, b.len(), None).unwrap();
    let t = f.tag.expect("tag expected");
    assert_eq!(t.tpid, 0x8100);
    assert_eq!(t.tci, 42);
    assert_eq!(f.ether_type, 0x0800);
    assert_eq!(f.get_vlan(), 42);
    assert_eq!(f.data, sample_payload());
}

#[test]
fn parse_attaches_offloaded_tag() {
    let b = untagged_bytes();
    let aux = Tag::build_from_u16(0x8100, 77);
    let f = Frame::parse(&b, b.len(), Some(aux)).unwrap();
    assert_eq!(f.get_vlan(), 77);
    assert_eq!(f.ether_type, 0x0800);
}

#[test]
fn parse_rejects_short_buffer() {
    let b = [0u8; 13];
    assert_eq!(Frame::parse(&b, 13, None).unwrap_err(), FrameError::TooShort);
}

#[test]
fn parse_rejects_truncated_tagged_frame() {
    // 14 bytes announcing a tag, but no room for it.
    let b = [
        0x11, 0x22, 0x33, 0x44, 0x55, 0x66, 0xAA, 0xBB, 0xCC, 0xDD, 0xEE, 0xFF, 0x81, 0x00,
    ];
    assert_eq!(Frame::parse(&b, 14, None).unwrap_err(), FrameError::TooShort);
}

#[test]
fn parse_uses_given_size_not_buffer_length() {
    let mut b = untagged_bytes();
    let n = b.len();
    b.extend(vec![0u8; 100]); // receive buffer slack
    let f = Frame::parse(&b, n, None).unwrap();
    assert_eq!(f.data, sample_payload());
}

#[test]
fn to_bytes_restores_untagged_wire_format() {
    let b = untagged_bytes();
    let f = Frame::parse(&b, b.len(), None).unwrap();
    assert_eq!(f.to_bytes(), b);
}

#[test]
fn to_bytes_restores_tagged_wire_format() {
    let b = tagged_bytes(300);
    let f = Frame::parse(&b, b.len(), None).unwrap();
    assert_eq!(f.to_bytes(), b);
}

#[test]
fn tag_then_untag_restores_bytes_exactly() {
    let b = untagged_bytes();
    let mut f = Frame::parse(&b, b.len(), None).unwrap();
    f.tag(10);
    assert_eq!(f.get_vlan(), 10);
    assert_ne!(f.to_bytes(), b);
    f.untag();
    assert_eq!(f.to_bytes(), b);
}

#[test]
fn broadcast_address_is_detected() {
    let mut b = untagged_bytes();
    for i in 0..6 {
        b[i] = 0xFF;
    }
    let f = Frame::parse(&b, b.len(), None).unwrap();
    assert!(f.is_broadcast());
    assert!(f.dst_mac.is_broadcast());
    assert!(!f.src_mac.is_broadcast());
}

#[test]
fn eth_type_names() {
    let mut b = untagged_bytes();
    b[12] = 0x08;
    b[13] = 0x06;
    let f = Frame::parse(&b, b.len(), None).unwrap();
    assert_eq!(f.get_eth_type(), "ARP");
    b[12] = 0x86;
    b[13] = 0xdd;
    let f = Frame::parse(&b, b.len(), None).unwrap();
    assert_eq!(f.get_eth_type(), "IPv6");
    b[12] = 0x12;
    b[13] = 0x34;
    let f = Frame::parse(&b, b.len(), None).unwrap();
    assert_eq!(f.get_eth_type(), "UNKNOWN");
}

#[test]
fn mac_val_packs_big_endian() {
    let m = Mac::new(0x01, 0x02, 0x03, 0x04, 0x05, 0x06);
    assert_eq!(m.val(), 0x010203040506u64);
}
