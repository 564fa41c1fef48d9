use nmrs::ip_address::parse_prefix;
use nmrs::{AddrParseError, IntParseError, IpAddress, IpAddressParseError, Ipv4Addr, Ipv6Addr};

fn v4(s: &str) -> Result<IpAddress<Ipv4Addr>, IpAddressParseError> {
    IpAddress::<Ipv4Addr>::parse_text(s)
}

fn v6(s: &str) -> Result<IpAddress<Ipv6Addr>, IpAddressParseError> {
    IpAddress::<Ipv6Addr>::parse_text(s)
}

#[test]
fn new_keeps_address_and_prefix() {
    let ip = IpAddress::new(Ipv4Addr::new(192, 168, 1, 10), 24);
    assert_eq!(ip.address, Ipv4Addr::new(192, 168, 1, 10));
    assert_eq!(ip.prefix, 24);
}

#[test]
fn parse_ipv4_with_prefix() {
    let ip = v4("192.168.1.10/24").unwrap();
    assert_eq!(ip.address.octets(), [192, 168, 1, 10]);
    assert_eq!(ip.prefix, 24);
}

#[test]
fn parse_through_from_str() {
    let ip: IpAddress<Ipv4Addr> = "10.0.0.1/8".parse().unwrap();
    assert_eq!(ip, IpAddress::new(Ipv4Addr::new(10, 0, 0, 1), 8));
    let ip6: IpAddress<Ipv6Addr> = "fe80::1/64".parse().unwrap();
    assert_eq!(ip6.address.segments(), [0xfe80, 0, 0, 0, 0, 0, 0, 1]);
    assert_eq!(ip6.prefix, 64);
}

#[test]
fn parse_without_slash_is_split_error() {
    assert_eq!(v4("192.168.1.10"), Err(IpAddressParseError::Split));
    assert_eq!(v6("::1"), Err(IpAddressParseError::Split));
    assert_eq!(v4(""), Err(IpAddressParseError::Split));
}

#[test]
fn parse_bad_address_is_addr_error() {
    assert_eq!(v4("192.168.1/24"), Err(IpAddressParseError::Addr(AddrParseError::Ipv4)));
    assert_eq!(v4("256.0.0.1/24"), Err(IpAddressParseError::Addr(AddrParseError::Ipv4)));
    assert_eq!(v4("01.0.0.1/24"), Err(IpAddressParseError::Addr(AddrParseError::Ipv4)));
    assert_eq!(v4("::1/24"), Err(IpAddressParseError::Addr(AddrParseError::Ipv4)));
    assert_eq!(v6("1.2.3.4/24"), Err(IpAddressParseError::Addr(AddrParseError::Ipv6)));
    assert_eq!(v6(":::/24"), Err(IpAddressParseError::Addr(AddrParseError::Ipv6)));
}

#[test]
fn address_error_comes_before_prefix_error() {
    assert_eq!(v4("1.2.3/xx"), Err(IpAddressParseError::Addr(AddrParseError::Ipv4)));
}

#[test]
fn parse_bad_prefix_is_prefix_error() {
    assert_eq!(v4("10.0.0.1/"), Err(IpAddressParseError::Prefix(IntParseError::Empty)));
    assert_eq!(v4("10.0.0.1/2a"), Err(IpAddressParseError::Prefix(IntParseError::InvalidDigit)));
    assert_eq!(v4("10.0.0.1/256"), Err(IpAddressParseError::Prefix(IntParseError::PosOverflow)));
    assert_eq!(v6("::/-1"), Err(IpAddressParseError::Prefix(IntParseError::InvalidDigit)));
}

#[test]
fn split_is_at_the_last_slash() {
    assert_eq!(v4("10.0.0.1/8/8"), Err(IpAddressParseError::Addr(AddrParseError::Ipv4)));
}

#[test]
fn prefix_is_not_range_checked() {
    let ip = v4("10.0.0.1/200").unwrap();
    assert_eq!(ip.prefix, 200);
}

#[test]
fn prefix_reads_like_u8_from_str() {
    for s in ["0", "7", "007", "+32", "255", "256", "999x", "25x6", "", "+", "-", "-5", "++1", " 1", "1000"] {
        let expected = s.parse::<u8>().map_err(|e| match e.kind() {
            std::num::IntErrorKind::Empty => IntParseError::Empty,
            std::num::IntErrorKind::InvalidDigit => IntParseError::InvalidDigit,
            std::num::IntErrorKind::PosOverflow => IntParseError::PosOverflow,
            _ => unreachable!(),
        });
        assert_eq!(parse_prefix(s), expected, "prefix {:?}", s);
    }
}

#[test]
fn ipv4_to_string_then_parse_roundtrips() {
    for (o, p) in [([0u8, 0, 0, 0], 0u8), ([255, 255, 255, 255], 255), ([10, 0, 100, 9], 32), ([1, 20, 3, 199], 7)] {
        let ip = IpAddress::new(Ipv4Addr::new(o[0], o[1], o[2], o[3]), p);
        let text = ip.to_string();
        assert_eq!(v4(&text), Ok(ip));
    }
}

#[test]
fn ipv4_to_string_exact() {
    let ip = IpAddress::new(Ipv4Addr::new(192, 168, 0, 1), 16);
    assert_eq!(ip.to_string(), "192.168.0.1/16");
}

#[test]
fn ipv6_to_string_exact() {
    let ip = IpAddress::new(Ipv6Addr::new(0x2001, 0xdb8, 0, 0, 0, 0, 0, 1), 64);
    assert_eq!(ip.to_string(), "2001:db8::1/64");
}

#[test]
fn ipv6_to_string_then_parse_roundtrips() {
    let samples = [
        [0u16, 0, 0, 0, 0, 0, 0, 0],
        [0, 0, 0, 0, 0, 0, 0, 1],
        [1, 0, 0, 0, 0, 0, 0, 0],
        [0, 0, 0, 0, 0, 0xffff, 0xc0a8, 0x0001],
        [1, 0, 1, 0, 1, 0, 1, 0],
        [0xffff; 8],
        [1, 0, 0, 2, 0, 0, 0, 3],
    ];
    for g in samples {
        let ip = IpAddress::new(Ipv6Addr::new(g[0], g[1], g[2], g[3], g[4], g[5], g[6], g[7]), 48);
        let text = ip.to_string();
        assert_eq!(v6(&text), Ok(ip), "text {}", text);
    }
}

#[test]
fn ipv4_conversion_gives_the_address() {
    let ip = IpAddress::new(Ipv4Addr::new(127, 0, 0, 1), 8);
    let a: Ipv4Addr = ip.into();
    assert_eq!(a, Ipv4Addr::new(127, 0, 0, 1));
    let ip6 = IpAddress::new(Ipv6Addr::new(0, 0, 0, 0, 0, 0, 0, 1), 128);
    let b: Ipv6Addr = ip6.into();
    assert_eq!(b.segments(), [0, 0, 0, 0, 0, 0, 0, 1]);
}

#[test]
fn parse_error_converts_into_connection_error() {
    let e: nmrs::ConnectionError = IpAddressParseError::Split.into();
    assert!(matches!(e, nmrs::ConnectionError::AddressParse(IpAddressParseError::Split)));
}

#[test]
fn debug_text_is_address_slash_prefix() {
    let ip = IpAddress::new(Ipv4Addr::new(10, 0, 0, 1), 8);
    assert_eq!(ip.to_debug_string(), "10.0.0.1/8");
    assert_eq!(ip.address.to_debug_string(), "10.0.0.1");
    let ip6 = IpAddress::new(Ipv6Addr::new(0xfe80, 0, 0, 0, 0, 0, 0, 1), 64);
    assert_eq!(ip6.to_debug_string(), "fe80::1/64");
    assert_eq!(ip6.address.to_debug_string(), "fe80::1");
}
