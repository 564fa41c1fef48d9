use nmrs::{ConnectionError, IntParseError, IpAddressParseError};

#[test]
fn dbus_error_converts_into_connection_error() {
    let e: ConnectionError = zbus::Error::Failure("boom".to_string()).into();
    match e {
        ConnectionError::Dbus(zbus::Error::Failure(s)) => assert_eq!(s, "boom"),
        other => panic!("unexpected {:?}", other),
    }
}

#[test]
fn utf8_error_converts_into_connection_error() {
    let bytes = vec![0xffu8, 0xfe];
    let err = std::str::from_utf8(&bytes).unwrap_err();
    let e: ConnectionError = err.into();
    match e {
        ConnectionError::InvalidUtf8(u) => assert_eq!(u, err),
        other => panic!("unexpected {:?}", other),
    }
}

#[test]
fn prefix_error_converts_into_parse_error() {
    let e: IpAddressParseError = IntParseError::PosOverflow.into();
    assert_eq!(e, IpAddressParseError::Prefix(IntParseError::PosOverflow));
    let c: ConnectionError = e.into();
    assert!(matches!(c, ConnectionError::AddressParse(IpAddressParseError::Prefix(IntParseError::PosOverflow))));
}

#[test]
fn address_error_converts_into_parse_error() {
    let e: IpAddressParseError = nmrs::AddrParseError::Ipv6.into();
    assert_eq!(e, IpAddressParseError::Addr(nmrs::AddrParseError::Ipv6));
}

#[test]
fn parse_error_messages() {
    assert_eq!(IpAddressParseError::Split.message(), "could not split into address and prefix");
    assert_eq!(
        IpAddressParseError::Addr(nmrs::AddrParseError::Ipv4).message(),
        "address parsing failed: invalid IPv4 address syntax"
    );
    assert_eq!(
        IpAddressParseError::Addr(nmrs::AddrParseError::Ipv6).message(),
        "address parsing failed: invalid IPv6 address syntax"
    );
    assert_eq!(
        IpAddressParseError::Prefix(IntParseError::Empty).message(),
        "prefix parsing failed: cannot parse integer from empty string"
    );
    assert_eq!(
        IpAddressParseError::Prefix(IntParseError::InvalidDigit).message(),
        "prefix parsing failed: invalid digit found in string"
    );
    assert_eq!(
        IpAddressParseError::Prefix(IntParseError::PosOverflow).message(),
        "prefix parsing failed: number too large to fit in target type"
    );
}

#[test]
fn prefix_error_messages_match_std() {
    for s in ["", "x", "300"] {
        let std_text = s.parse::<u8>().unwrap_err().to_string();
        let ours = nmrs::ip_address::parse_prefix(s).unwrap_err().message();
        assert_eq!(ours, std_text, "prefix {:?}", s);
    }
}

#[test]
fn connection_error_messages() {
    let e = ConnectionError::AddressParse(IpAddressParseError::Split);
    assert_eq!(e.message().unwrap(), "invalid IP address: could not split into address and prefix");
    assert_eq!(ConnectionError::NotFound.message().unwrap(), "network not found");
    assert_eq!(
        ConnectionError::VpnNotFound("work".to_string()).message().unwrap(),
        "VPN connection 'work' not found"
    );
    assert_eq!(
        ConnectionError::InvalidVlanId { id: 5000 }.message().unwrap(),
        "invalid VLAN ID 5000: must be between 1 and 4094"
    );
    assert_eq!(
        ConnectionError::ApBssidNotFound { ssid: "home".to_string(), bssid: "AA:BB".to_string() }
            .message()
            .unwrap(),
        "access point for SSID 'home' with BSSID 'AA:BB' not found"
    );
    assert_eq!(
        ConnectionError::InvalidInput { field: "mtu".to_string(), reason: "too big".to_string() }
            .message()
            .unwrap(),
        "invalid mtu: too big"
    );
    assert!(ConnectionError::Dbus(zbus::Error::Failure("x".to_string())).message().is_none());
    assert!(ConnectionError::DeviceFailed(7).message().is_none());
}
