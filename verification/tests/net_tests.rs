use wirecage::cidr::{best_prefix, owns_ip, Cidr};
use wirecage::ip::{dest_addr, tun_prefix_len, Addr, Endpoint};
use wirecage::text::{
    fmt_ipv4, fmt_u32_dec, parse_addr, parse_cidr, parse_dec_u32, parse_endpoint, parse_ipv4,
    parse_ipv6, parse_route_dev, split_bytes,
};

fn v4(a: u8, b: u8, c: u8, d: u8) -> u32 {
    u32::from_be_bytes([a, b, c, d])
}

#[test]
fn parse_dec_u32_basics() {
    assert_eq!(parse_dec_u32(b"0"), Some(0));
    assert_eq!(parse_dec_u32(b"51820"), Some(51820));
    assert_eq!(parse_dec_u32(b"4294967295"), Some(u32::MAX));
    assert_eq!(parse_dec_u32(b"4294967296"), None);
    assert_eq!(parse_dec_u32(b""), None);
    assert_eq!(parse_dec_u32(b"12a"), None);
    assert_eq!(parse_dec_u32(b"-1"), None);
}

#[test]
fn fmt_dec_exact() {
    assert_eq!(fmt_u32_dec(0), b"0".to_vec());
    assert_eq!(fmt_u32_dec(10), b"10".to_vec());
    assert_eq!(fmt_u32_dec(51820), b"51820".to_vec());
    assert_eq!(fmt_u32_dec(u32::MAX), b"4294967295".to_vec());
}

#[test]
fn split_bytes_examples() {
    let parts = split_bytes(b"a.b..c", b'.');
    let views: Vec<&[u8]> = parts.iter().map(|p| p.as_slice()).collect();
    assert_eq!(views, vec![&b"a"[..], &b"b"[..], &b""[..], &b"c"[..]]);
    assert_eq!(split_bytes(b"", b'.').len(), 1);
}

#[test]
fn parse_ipv4_examples() {
    assert_eq!(parse_ipv4(b"10.200.100.1"), Some(v4(10, 200, 100, 1)));
    assert_eq!(parse_ipv4(b"0.0.0.0"), Some(0));
    assert_eq!(parse_ipv4(b"255.255.255.255"), Some(u32::MAX));
    assert_eq!(parse_ipv4(b"256.0.0.1"), None);
    assert_eq!(parse_ipv4(b"1.2.3"), None);
    assert_eq!(parse_ipv4(b"1.2.3.4.5"), None);
    assert_eq!(parse_ipv4(b"1.2.3.x"), None);
    assert_eq!(parse_ipv4(b""), None);
}

#[test]
fn fmt_ipv4_round_trip() {
    let a = v4(10, 1, 2, 1);
    assert_eq!(fmt_ipv4(a), b"10.1.2.1".to_vec());
    assert_eq!(parse_ipv4(&fmt_ipv4(a)), Some(a));
    assert_eq!(fmt_ipv4(v4(255, 0, 255, 0)), b"255.0.255.0".to_vec());
}

#[test]
fn parse_cidr_examples() {
    let c = parse_cidr(b"10.7.0.0/24").unwrap();
    assert_eq!(c.net, Addr::V4(v4(10, 7, 0, 0)));
    assert_eq!(c.prefix, 24);
    assert!(parse_cidr(b"10.7.0.0/33").is_none());
    assert!(parse_cidr(b"10.7.0.0").is_none());
    assert!(parse_cidr(b"10.7.0.0/").is_none());
    assert!(parse_cidr(b"10.7.0/24").is_none());
}

#[test]
fn parse_endpoint_examples() {
    let e = parse_endpoint(b"203.0.113.9:51820").unwrap();
    assert_eq!(e, Endpoint { addr: Addr::V4(v4(203, 0, 113, 9)), port: 51820 });
    assert!(parse_endpoint(b"203.0.113.9").is_none());
    assert!(parse_endpoint(b"203.0.113.9:65536").is_none());
    assert!(parse_endpoint(b"example.com:51820").is_none());
}

#[test]
fn cidr_contains_is_prefix_bit_equality() {
    let block = Cidr { net: Addr::V4(v4(10, 7, 0, 0)), prefix: 24 };
    assert!(block.contains(Addr::V4(v4(10, 7, 0, 2))));
    assert!(block.contains(Addr::V4(v4(10, 7, 0, 255))));
    assert!(!block.contains(Addr::V4(v4(10, 7, 1, 2))));
    assert!(!block.contains(Addr::V6(1)));

    let exact = Cidr { net: Addr::V4(v4(10, 7, 0, 2)), prefix: 32 };
    assert!(exact.contains(Addr::V4(v4(10, 7, 0, 2))));
    assert!(!exact.contains(Addr::V4(v4(10, 7, 0, 3))));

    let all = Cidr { net: Addr::V4(0), prefix: 0 };
    assert!(all.contains(Addr::V4(v4(203, 0, 113, 9))));

    // A 31-bit prefix separates addresses that differ in their last bit only.
    let pair = Cidr { net: Addr::V4(v4(10, 0, 0, 2)), prefix: 31 };
    assert!(pair.contains(Addr::V4(v4(10, 0, 0, 3))));
    assert!(!pair.contains(Addr::V4(v4(10, 0, 0, 4))));
}

#[test]
fn cidr_v6_contains() {
    let a: u128 = 0x2001_0db8_0000_0000_0000_0000_0000_0001;
    let block = Cidr { net: Addr::V6(0x2001_0db8_0000_0000_0000_0000_0000_0000), prefix: 32 };
    assert!(block.contains(Addr::V6(a)));
    assert!(!block.contains(Addr::V6(0x2001_0db9_0000_0000_0000_0000_0000_0000)));
    let exact = Cidr { net: Addr::V6(a), prefix: 128 };
    assert!(exact.contains(Addr::V6(a)));
    assert!(!exact.contains(Addr::V6(a + 1)));
}

#[test]
fn owns_ip_and_longest_prefix() {
    let list = vec![
        Cidr { net: Addr::V4(0), prefix: 0 },
        Cidr { net: Addr::V4(v4(10, 7, 0, 0)), prefix: 24 },
        Cidr { net: Addr::V4(v4(10, 7, 0, 2)), prefix: 32 },
    ];
    assert!(owns_ip(&list, Addr::V4(v4(10, 7, 0, 2))));
    assert!(owns_ip(&list, Addr::V4(v4(8, 8, 8, 8))));
    assert_eq!(best_prefix(&list, Addr::V4(v4(10, 7, 0, 2))), Some(32));
    assert_eq!(best_prefix(&list, Addr::V4(v4(10, 7, 0, 9))), Some(24));
    assert_eq!(best_prefix(&list, Addr::V4(v4(8, 8, 8, 8))), Some(0));
    let none: Vec<Cidr> = Vec::new();
    assert!(!owns_ip(&none, Addr::V4(1)));
    assert_eq!(best_prefix(&none, Addr::V4(1)), None);
}

#[test]
fn dest_addr_reads_the_version_nibble() {
    let mut p4 = vec![0u8; 20];
    p4[0] = 0x45;
    p4[16] = 8;
    p4[17] = 8;
    p4[18] = 8;
    p4[19] = 8;
    assert_eq!(dest_addr(&p4), Some(Addr::V4(v4(8, 8, 8, 8))));

    let mut p6 = vec![0u8; 40];
    p6[0] = 0x60;
    p6[24] = 0x20;
    p6[25] = 0x01;
    p6[39] = 0x01;
    let want: u128 = 0x2001_0000_0000_0000_0000_0000_0000_0001;
    assert_eq!(dest_addr(&p6), Some(Addr::V6(want)));

    assert_eq!(dest_addr(&[0x45u8; 12]), None);
    let mut bad = vec![0u8; 40];
    bad[0] = 0x70;
    assert_eq!(dest_addr(&bad), None);
    let mut short6 = vec![0u8; 30];
    short6[0] = 0x60;
    assert_eq!(dest_addr(&short6), None);
}

#[test]
fn tun_prefix_defaults() {
    assert_eq!(tun_prefix_len(Addr::V4(0)), 24);
    assert_eq!(tun_prefix_len(Addr::V6(0)), 64);
}

#[test]
fn parse_route_dev_finds_the_device() {
    let out = b"default via 192.168.1.1 dev eth0 proto dhcp metric 100\n";
    assert_eq!(parse_route_dev(out), Some(b"eth0".to_vec()));
    assert_eq!(parse_route_dev(b"default via 192.168.1.1"), None);
    assert_eq!(parse_route_dev(b"dev"), None);
    assert_eq!(parse_route_dev(b""), None);
    assert_eq!(parse_route_dev(b"a dev  wg0"), Some(b"wg0".to_vec()));
}

#[test]
fn parse_ipv6_examples() {
    assert_eq!(
        parse_ipv6(b"2001:db8:0:0:0:0:0:1"),
        Some(0x2001_0db8_0000_0000_0000_0000_0000_0001)
    );
    assert_eq!(parse_ipv6(b"2001:db8::1"), Some(0x2001_0db8_0000_0000_0000_0000_0000_0001));
    assert_eq!(parse_ipv6(b"::1"), Some(1));
    assert_eq!(parse_ipv6(b"::"), Some(0));
    assert_eq!(parse_ipv6(b"fe80::"), Some(0xfe80_0000_0000_0000_0000_0000_0000_0000));
    assert_eq!(
        parse_ipv6(b"1:2:3:4:5:6:7:8"),
        Some(0x0001_0002_0003_0004_0005_0006_0007_0008)
    );
    assert_eq!(parse_ipv6(b"AbCd::EF"), Some(0xabcd_0000_0000_0000_0000_0000_0000_00ef));
    assert_eq!(parse_ipv6(b"1::2::3"), None);
    assert_eq!(parse_ipv6(b"1:2:3:4:5:6:7"), None);
    assert_eq!(parse_ipv6(b"1:2:3:4:5:6:7:8:9"), None);
    assert_eq!(parse_ipv6(b"1:2:3:4:5:6:7:8::"), None);
    assert_eq!(parse_ipv6(b":::"), None);
    assert_eq!(parse_ipv6(b"12345::"), None);
    assert_eq!(parse_ipv6(b"g::1"), None);
    assert_eq!(parse_ipv6(b""), None);
}


#[test]
fn parse_addr_and_v6_cidr() {
    assert_eq!(parse_addr(b"10.0.0.1"), Some(Addr::V4(v4(10, 0, 0, 1))));
    assert_eq!(parse_addr(b"::1"), Some(Addr::V6(1)));
    assert_eq!(parse_addr(b"pigeon"), None);

    let c = parse_cidr(b"2001:db8::/32").unwrap();
    assert_eq!(c.net, Addr::V6(0x2001_0db8_0000_0000_0000_0000_0000_0000));
    assert_eq!(c.prefix, 32);
    assert!(parse_cidr(b"2001:db8::/129").is_none());
    assert!(parse_cidr(b"::/0").is_some());
}

#[test]
fn parse_v6_endpoint() {
    let e = parse_endpoint(b"[2001:db8::1]:51820").unwrap();
    assert_eq!(
        e,
        Endpoint {
            addr: Addr::V6(0x2001_0db8_0000_0000_0000_0000_0000_0001),
            port: 51820
        }
    );
    assert!(parse_endpoint(b"[2001:db8::1]").is_none());
    assert!(parse_endpoint(b"[]:80").is_none());
    assert!(parse_endpoint(b"[::1]:99999").is_none());
}
