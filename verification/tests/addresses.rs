use nmrs::{AddrParseError, Ipv4Addr, Ipv6Addr};

const V4_SAMPLES: &[(&str, Option<[u8; 4]>)] = &[
    ("0.0.0.0", Some([0, 0, 0, 0])),
    ("1.2.3.4", Some([1, 2, 3, 4])),
    ("255.255.255.255", Some([255, 255, 255, 255])),
    ("256.1.1.1", None),
    ("01.1.1.1", None),
    ("1.1.1", None),
    ("1.1.1.1.1", None),
    ("1..1.1", None),
    ("", None),
    ("1.1.1.1 ", None),
    ("+1.1.1.1", None),
    ("1.1.1.0001", None),
    ("10.0.0.10", Some([10, 0, 0, 10])),
    ("1.2.3.a", None),
    (".1.2.3", None),
    ("1.2.3.4.", None),
    ("199.99.9.0", Some([199, 99, 9, 0])),
    ("1000.1.1.1", None),
];

const V6_SAMPLES: &[(&str, Option<[u16; 8]>)] = &[
    ("::", Some([0, 0, 0, 0, 0, 0, 0, 0])),
    ("::1", Some([0, 0, 0, 0, 0, 0, 0, 1])),
    ("1::", Some([1, 0, 0, 0, 0, 0, 0, 0])),
    ("1::2", Some([1, 0, 0, 0, 0, 0, 0, 2])),
    ("1:2:3:4:5:6:7:8", Some([1, 2, 3, 4, 5, 6, 7, 8])),
    ("1:2:3:4:5:6:7::", Some([1, 2, 3, 4, 5, 6, 7, 0])),
    ("::2:3:4:5:6:7:8", Some([0, 2, 3, 4, 5, 6, 7, 8])),
    ("1:2:3:4:5:6:7:8:9", None),
    ("1:2:3:4:5:6:7:8::", None),
    ("1:::2", None),
    (":::", None),
    (":1:2:3:4:5:6:7:8", None),
    ("1:2:3:4:5:6:7", None),
    ("::ffff:1.2.3.4", Some([0, 0, 0, 0, 0, 0xffff, 0x0102, 0x0304])),
    ("::1.2.3.4", Some([0, 0, 0, 0, 0, 0, 0x0102, 0x0304])),
    ("1:2:3:4:5:6:1.2.3.4", Some([1, 2, 3, 4, 5, 6, 0x0102, 0x0304])),
    ("1:2:3:4:5:6:7:1.2.3.4", None),
    ("1.2.3.4::", None),
    ("1:2:3:4:5:1.2.3.4", None),
    ("fe80::1%eth0", None),
    ("12345::", None),
    ("ABCD:ef01::0000:1", Some([0xabcd, 0xef01, 0, 0, 0, 0, 0, 1])),
    ("0000:0000:0000:0000:0000:0000:0000:0001", Some([0, 0, 0, 0, 0, 0, 0, 1])),
    ("1::2::3", None),
    ("2001:db8::", Some([0x2001, 0xdb8, 0, 0, 0, 0, 0, 0])),
    ("1:2:3:4:5:6::1.2.3.4", None),
    ("1:2:3:4:5::1.2.3.4", Some([1, 2, 3, 4, 5, 0, 0x0102, 0x0304])),
    ("::1.2.3.256", None),
    ("g::", None),
    ("1::2:", None),
    ("", None),
    ("1:2:3:4:5:6:7:8:", None),
    ("::ffff:01.2.3.4", None),
];

#[test]
fn ipv4_parse_samples() {
    for (s, expected) in V4_SAMPLES {
        let ours = Ipv4Addr::parse_text(s).ok().map(|a| a.octets());
        assert_eq!(ours, *expected, "text {:?}", s);
    }
}

#[test]
fn ipv6_parse_samples() {
    for (s, expected) in V6_SAMPLES {
        let ours = Ipv6Addr::parse_text(s).ok().map(|a| a.segments());
        assert_eq!(ours, *expected, "text {:?}", s);
    }
}

#[test]
fn ipv4_parse_error_is_ipv4() {
    assert_eq!(Ipv4Addr::parse_text("1.2.3"), Err(AddrParseError::Ipv4));
}

#[test]
fn ipv6_parse_error_is_ipv6() {
    assert_eq!(Ipv6Addr::parse_text("1:2"), Err(AddrParseError::Ipv6));
}

#[test]
fn ipv4_text_samples() {
    let samples: [([u8; 4], &str); 4] = [
        ([0, 0, 0, 0], "0.0.0.0"),
        ([255, 255, 255, 255], "255.255.255.255"),
        ([10, 9, 100, 1], "10.9.100.1"),
        ([172, 16, 254, 3], "172.16.254.3"),
    ];
    for (o, text) in samples {
        assert_eq!(Ipv4Addr::new(o[0], o[1], o[2], o[3]).to_string(), text);
    }
}

#[test]
fn ipv6_text_samples() {
    let samples: [([u16; 8], &str); 12] = [
        ([0, 0, 0, 0, 0, 0, 0, 0], "::"),
        ([0, 0, 0, 0, 0, 0, 0, 1], "::1"),
        ([1, 0, 0, 0, 0, 0, 0, 0], "1::"),
        ([0, 0, 0, 0, 0, 0xffff, 0xc0a8, 0x0001], "::ffff:192.168.0.1"),
        ([0, 0, 0, 0, 0, 0, 0xc0a8, 0x0001], "::c0a8:1"),
        ([1, 0, 1, 0, 1, 0, 1, 0], "1:0:1:0:1:0:1:0"),
        ([0xffff; 8], "ffff:ffff:ffff:ffff:ffff:ffff:ffff:ffff"),
        ([1, 0, 0, 2, 0, 0, 0, 3], "1:0:0:2::3"),
        ([1, 0, 0, 2, 0, 0, 3, 4], "1::2:0:0:3:4"),
        ([0x2001, 0xdb8, 0, 0, 0xab, 0, 0, 1], "2001:db8::ab:0:0:1"),
        ([0, 1, 0, 0, 0, 0, 0, 0], "0:1::"),
        ([0, 0, 0, 0, 0, 0xfffe, 1, 2], "::fffe:1:2"),
    ];
    for (g, text) in samples {
        let a = Ipv6Addr::new(g[0], g[1], g[2], g[3], g[4], g[5], g[6], g[7]);
        assert_eq!(a.to_string(), text);
        assert_eq!(Ipv6Addr::parse_text(text), Ok(a));
    }
}

#[test]
fn ipv6_text_compresses_first_longest_zero_run() {
    let a = Ipv6Addr::new(1, 0, 0, 2, 0, 0, 3, 4);
    assert_eq!(a.to_string(), "1::2:0:0:3:4");
    let b = Ipv6Addr::new(1, 0, 0, 2, 0, 0, 0, 3);
    assert_eq!(b.to_string(), "1:0:0:2::3");
}

#[test]
fn ipv6_single_zero_is_not_compressed() {
    let a = Ipv6Addr::new(1, 0, 1, 0, 1, 0, 1, 0);
    assert_eq!(a.to_string(), "1:0:1:0:1:0:1:0");
}

#[test]
fn ipv6_mapped_is_written_with_ipv4_text() {
    let a = Ipv6Addr::new(0, 0, 0, 0, 0, 0xffff, 0xc0a8, 0x0001);
    assert_eq!(a.to_string(), "::ffff:192.168.0.1");
}

#[test]
fn address_from_str_impls() {
    let a: Ipv4Addr = "8.8.4.4".parse().unwrap();
    assert_eq!(a, Ipv4Addr::new(8, 8, 4, 4));
    let b: Result<Ipv6Addr, AddrParseError> = "x::".parse();
    assert_eq!(b, Err(AddrParseError::Ipv6));
}

#[test]
fn ipv4_text_has_one_spelling() {
    for (s, expected) in V4_SAMPLES {
        if expected.is_some() {
            let a = Ipv4Addr::parse_text(s).unwrap();
            assert_eq!(a.to_string(), *s);
        }
    }
}
