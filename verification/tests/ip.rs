use hirkn::ip::{chars_of, finds_padded_octet, IpAddress, IpNetwork, IP};

fn v4(a: u8, b: u8, c: u8, d: u8) -> IpAddress {
    IpAddress::V4(u32::from_be_bytes([a, b, c, d]))
}

fn net(text: &str) -> IpNetwork {
    match IP::parse(text) {
        Some(IP::Network(net)) => net,
        other => panic!("{text} is no network: {other:?}"),
    }
}

fn addr(text: &str) -> IpAddress {
    match IP::parse(text) {
        Some(IP::Single(addr)) => addr,
        other => panic!("{text} is no address: {other:?}"),
    }
}

#[test]
fn parse_ipv4_single() {
    let parsed: IP = "127.0.0.1".parse().unwrap();
    let expected = v4(127, 0, 0, 1);

    assert_eq!(parsed, IP::Single(expected));
}

#[test]
fn parse_ipv6_single() {
    let parsed: IP = "::1".parse().unwrap();
    let expected = IpAddress::V6(1);

    assert_eq!(parsed, IP::Single(expected));
}

#[test]
fn parse_ipv4_network() {
    let parsed: IP = "127.0.0.1/32".parse().unwrap();

    let expected_ip = v4(127, 0, 0, 1);
    let expected_net = IpNetwork::new(expected_ip, 32).unwrap();

    assert_eq!(parsed, IP::Network(expected_net));

    let parsed: IP = "127.0.0.1/24".parse().unwrap();
    assert_ne!(parsed, IP::Network(expected_net));
}

#[test]
fn parse_ipv6_network() {
    let parsed: IP = "::1/128".parse().unwrap();

    let expected_ip = IpAddress::V6(1);
    let expected_net = IpNetwork::new(expected_ip, 128).unwrap();

    assert_eq!(parsed, IP::Network(expected_net));

    let parsed: IP = "::1/64".parse().unwrap();
    assert_ne!(parsed, IP::Network(expected_net));
}

#[test]
fn parse_gives_the_bits_most_significant_octet_first() {
    assert_eq!(addr("192.168.0.1"), IpAddress::V4(0xc0a8_0001));
    assert_eq!(addr("255.255.255.255"), IpAddress::V4(u32::MAX));
    assert_eq!(addr("0.0.0.0"), IpAddress::V4(0));
    assert_eq!(
        addr("97e6:2566:e5dd:048e:22d7:7b0f:950b:1907"),
        IpAddress::V6(0x97e6_2566_e5dd_048e_22d7_7b0f_950b_1907)
    );
    assert_eq!(addr("::ffff:1.2.3.4"), IpAddress::V6(0xffff_0102_0304));
}

#[test]
fn parse_clears_the_host_bits_of_a_network() {
    assert_eq!(
        IP::parse("127.0.0.1/24"),
        Some(IP::Network(IpNetwork { addr: v4(127, 0, 0, 0), prefix_len: 24 }))
    );
    assert_eq!(
        IP::parse("192.168.0.10/28"),
        Some(IP::Network(IpNetwork { addr: v4(192, 168, 0, 0), prefix_len: 28 }))
    );
    assert_eq!(
        IP::parse("255.255.255.255/0"),
        Some(IP::Network(IpNetwork { addr: v4(0, 0, 0, 0), prefix_len: 0 }))
    );
    assert_eq!(
        IP::parse("97e6:2566:e5dd:48e:1:2:3:4/64"),
        Some(IP::Network(IpNetwork {
            addr: IpAddress::V6(0x97e6_2566_e5dd_048e_0000_0000_0000_0000),
            prefix_len: 64
        }))
    );
    assert_eq!(
        IP::parse("ffff:ffff:ffff:ffff:ffff:ffff:ffff:ffff/1"),
        Some(IP::Network(IpNetwork { addr: IpAddress::V6(1 << 127), prefix_len: 1 }))
    );
}

#[test]
fn spellings_of_one_network_parse_equal() {
    assert_eq!(IP::parse("10.0.0.0/8"), IP::parse("10.255.3.7/8"));
    assert_eq!(IP::parse("10.0.0.0/8"), IP::parse("010.0.0.0/08"));
    assert_eq!(IP::parse("10.0.0.0/8"), IP::parse("10.00.000.001/8"));
    assert_eq!(IP::parse("192.168.1.0/24"), IP::parse("192.168.1.255/24"));
    assert_eq!(
        IP::parse("2001:db8::/32"),
        IP::parse("2001:0db8:0000:0000:0000:0000:0000:0001/32")
    );
    assert_eq!(IP::parse("2001:DB8::/32"), IP::parse("2001:db8:ffff::/32"));
    assert_ne!(IP::parse("10.0.0.0/8"), IP::parse("10.0.0.0/9"));
    assert_ne!(IP::parse("10.0.0.0/8"), IP::parse("11.0.0.0/8"));
}

#[test]
fn an_address_is_not_the_network_of_full_length() {
    assert_ne!(IP::parse("10.0.0.1"), IP::parse("10.0.0.1/32"));
    assert_ne!(IP::parse("::1"), IP::parse("::1/128"));
}

#[test]
fn parse_rejects_what_is_neither() {
    for text in [
        "",
        "bad-entry",
        " 10.0.0.1",
        "10.0.0.1 ",
        "10.0.0",
        "10.0.0.256",
        "10.0.0.1/33",
        "10.0.0.1/",
        "10.0.0.1/8/0",
        "/0",
        "/8",
        "::1/129",
        ":::1",
        "1::2::3",
        "10.0.0.1/-1",
        "example.com",
        "# comment",
    ] {
        assert_eq!(IP::parse(text), None, "{text:?}");
        assert_eq!(text.parse::<IP>(), Err(()), "{text:?}");
    }
}

#[test]
fn bare_address_with_a_zero_padded_number_is_rejected() {
    for text in [
        "010.0.0.1",
        "10.00.0.1",
        "10.0.01.1",
        "10.0.0.01",
        "10.0.0.001",
        "00.0.0.0",
        "::ffff:01.2.3.4",
        "::ffff:1.2.3.04",
        "1:2:3:4:5:6:7.8.9.010",
    ] {
        assert_eq!(IP::parse(text), None, "{text:?}");
    }
}

#[test]
fn zeros_that_pad_nothing_are_accepted() {
    assert_eq!(addr("0.0.0.0"), IpAddress::V4(0));
    assert_eq!(addr("10.0.0.100"), IpAddress::V4(0x0a00_0064));
    assert_eq!(addr("100.200.0.0"), IpAddress::V4(0x64c8_0000));
    assert_eq!(addr("::0001"), IpAddress::V6(1));
    assert_eq!(addr("0db8::0012"), IpAddress::V6(0x0db8 << 112 | 0x12));
    assert_eq!(addr("0123:0000::"), IpAddress::V6(0x0123 << 112));
    assert_eq!(addr("01::1.2.3.4"), IpAddress::V6(1 << 112 | 0x0102_0304));
    assert_eq!(addr("::00:1.2.3.4"), IpAddress::V6(0x0102_0304));
}

#[test]
fn finds_padded_octet_looks_behind_the_last_colon_only() {
    for (text, expected) in [
        ("", false),
        ("0", false),
        ("01", false),
        ("01.", true),
        (".01", true),
        ("1.01", true),
        ("01:1.1", false),
        ("1.01:1", false),
        ("0a.1", false),
        ("10.0", false),
        ("1.0.", false),
        ("x01.1", false),
        ("1.00", true),
        ("09.1", true),
    ] {
        assert_eq!(finds_padded_octet(&chars_of(text)), expected, "{text:?}");
    }
}

#[test]
fn double_colon_may_stand_for_no_group() {
    let all_groups = IpAddress::V6(0x0001_0002_0003_0004_0005_0006_0007_0008);
    assert_eq!(addr("1:2:3:4:5:6:7:8"), all_groups);
    assert_eq!(addr("1:2:3:4::5:6:7:8"), all_groups);
    assert_eq!(addr("::1:2:3:4:5:6:7:8"), all_groups);
    assert_eq!(addr("1:2:3:4:5:6:7::8"), all_groups);
    assert_eq!(
        IP::parse("1:2:3:4::5:6:7:8/128"),
        Some(IP::Network(IpNetwork { addr: all_groups, prefix_len: 128 }))
    );
    assert_eq!(IP::parse("1:2:3:4:5:6:7:8::"), None);
    assert_eq!(IP::parse("1:2:3:4:5::6:7:8:9"), None);
}

#[test]
fn every_network_text_gives_an_entry() {
    for prefix_len in 0..=32u8 {
        let text = format!("255.255.255.255/{prefix_len}");
        assert_eq!(net(&text).prefix_len, prefix_len, "{text}");
    }
    for prefix_len in 0..=128u8 {
        let text = format!("ffff:ffff:ffff:ffff:ffff:ffff:ffff:ffff/{prefix_len}");
        assert_eq!(net(&text).prefix_len, prefix_len, "{text}");
    }
}

#[test]
fn parse_chars_reads_what_parse_reads() {
    for text in ["10.0.0.1", "10.0.0.1/8", "::1", "fe80::1/10", "nothing", ""] {
        assert_eq!(IP::parse_chars(&chars_of(text)), IP::parse(text), "{text:?}");
    }
    assert_eq!(chars_of("a/é"), vec!['a', '/', 'é']);
}

#[test]
fn new_network_rejects_a_prefix_that_is_too_long() {
    assert_eq!(IpNetwork::new(v4(10, 0, 0, 0), 33), None);
    assert_eq!(IpNetwork::new(v4(10, 0, 0, 0), 255), None);
    assert_eq!(IpNetwork::new(IpAddress::V6(0), 129), None);
    assert_eq!(
        IpNetwork::new(v4(10, 1, 2, 3), 32),
        Some(IpNetwork { addr: v4(10, 1, 2, 3), prefix_len: 32 })
    );
    assert_eq!(
        IpNetwork::new(IpAddress::V6(u128::MAX), 128),
        Some(IpNetwork { addr: IpAddress::V6(u128::MAX), prefix_len: 128 })
    );
    assert_eq!(
        IpNetwork::new(IpAddress::V6(u128::MAX), 0),
        Some(IpNetwork { addr: IpAddress::V6(0), prefix_len: 0 })
    );
    assert_eq!(
        IpNetwork::new(v4(10, 1, 2, 3), 31),
        Some(IpNetwork { addr: v4(10, 1, 2, 2), prefix_len: 31 })
    );
}

#[test]
fn network_contains_its_addresses_only() {
    let subnet = net("192.168.0.10/28");
    assert!(subnet.contains_addr(&addr("192.168.0.0")));
    assert!(subnet.contains_addr(&addr("192.168.0.1")));
    assert!(subnet.contains_addr(&addr("192.168.0.15")));
    assert!(!subnet.contains_addr(&addr("192.168.0.16")));
    assert!(!subnet.contains_addr(&addr("192.167.255.255")));
    assert!(!subnet.contains_addr(&addr("192.168.1.1")));

    let everything = net("0.0.0.0/0");
    assert!(everything.contains_addr(&addr("0.0.0.0")));
    assert!(everything.contains_addr(&addr("255.255.255.255")));

    let one = net("10.1.2.3/32");
    assert!(one.contains_addr(&addr("10.1.2.3")));
    assert!(!one.contains_addr(&addr("10.1.2.2")));
    assert!(!one.contains_addr(&addr("10.1.2.4")));

    let six = net("97e6:2566:e5dd:48e::/64");
    assert!(six.contains_addr(&addr("97e6:2566:e5dd:048e:22d7:7b0f:950b:1907")));
    assert!(six.contains_addr(&addr("97e6:2566:e5dd:048e:ffff:ffff:ffff:ffff")));
    assert!(!six.contains_addr(&addr("97e6:2566:e5dd:048f::")));
    assert!(!six.contains_addr(&addr("::1")));
}

#[test]
fn network_contains_networks_within_its_range() {
    let outer = net("10.0.0.0/8");
    assert!(outer.contains_net(&net("10.10.0.0/16")));
    assert!(outer.contains_net(&net("10.0.0.0/8")));
    assert!(outer.contains_net(&net("10.255.255.255/32")));
    assert!(!outer.contains_net(&net("10.0.0.0/7")));
    assert!(!outer.contains_net(&net("11.10.0.0/16")));
    assert!(!outer.contains_net(&net("0.0.0.0/0")));
    assert!(net("::/0").contains_net(&net("fe80::/10")));
    assert!(!net("fe80::/10").contains_net(&net("::/0")));
}

#[test]
fn containment_never_crosses_families() {
    assert!(!net("0.0.0.0/0").contains_addr(&addr("::1")));
    assert!(!net("::/0").contains_addr(&addr("10.0.0.1")));
    assert!(!net("0.0.0.0/0").contains_net(&net("::/0")));
    assert!(!net("::/0").contains_net(&net("0.0.0.0/0")));
    assert!(!net("::/0").contains_net(&net("10.0.0.0/8")));
    assert!(!IP::Single(addr("::ffff:10.0.0.1")).is_within(&net("10.0.0.0/8")));
}

#[test]
fn containment_does_not_depend_on_host_bits() {
    let written = IpNetwork { addr: v4(192, 168, 0, 10), prefix_len: 28 };
    let canonical = net("192.168.0.0/28");
    for candidate in ["192.168.0.0", "192.168.0.9", "192.168.0.15", "192.168.0.16"] {
        let candidate = addr(candidate);
        assert_eq!(written.contains_addr(&candidate), canonical.contains_addr(&candidate));
    }
    assert!(written.contains_net(&canonical));
    assert!(canonical.contains_net(&written));
}

#[test]
fn a_prefix_beyond_the_family_contains_like_the_longest() {
    let odd = IpNetwork { addr: v4(10, 0, 0, 1), prefix_len: 200 };
    assert!(odd.contains_addr(&v4(10, 0, 0, 1)));
    assert!(!odd.contains_addr(&v4(10, 0, 0, 0)));
    assert!(!odd.contains_addr(&v4(10, 0, 0, 2)));
}

#[test]
fn containment_agrees_with_ipnet() {
    let networks = ["10.0.0.0/8", "192.168.0.10/28", "0.0.0.0/0", "1.2.3.4/32", "fe80::/10", "::/0", "2001:db8::/33"];
    let candidates = [
        "10.0.0.0/8", "10.10.0.0/16", "9.255.255.255/32", "11.0.0.0/8", "192.168.0.0/29",
        "192.168.0.16/28", "192.168.0.15/32", "1.2.3.4/32", "1.2.3.4/31", "fe80::1/128",
        "febf:ffff::/32", "fec0::/10", "2001:db8:8000::/34", "2001:db8:7fff::/48", "::/0",
        "0.0.0.0/0",
    ];
    for network in networks {
        let theirs: ipnet::IpNet = network.parse().unwrap();
        let ours = net(network);
        for candidate in candidates {
            let their_candidate: ipnet::IpNet = candidate.parse().unwrap();
            let our_candidate = net(candidate);
            assert_eq!(
                ours.contains_net(&our_candidate),
                theirs.contains(&their_candidate),
                "{network} contains {candidate}"
            );
            assert_eq!(
                ours.contains_addr(&our_candidate.addr),
                theirs.contains(&their_candidate.network()),
                "{network} contains the first address of {candidate}"
            );
            assert_eq!(
                IP::Network(our_candidate).is_within(&ours),
                theirs.contains(&their_candidate)
            );
        }
    }
}

#[test]
fn as_network_gives_the_network_of_a_network_entry() {
    let network = net("10.0.0.0/8");
    assert_eq!(IP::Network(network).as_network(), Some(&network));
    assert_eq!(IP::Single(v4(10, 0, 0, 0)).as_network(), None);
}
