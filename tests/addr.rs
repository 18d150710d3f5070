use blockfast::addr::{parse_ip, IpAddr};

#[test]
fn ipv4_literals() {
    assert_eq!(parse_ip("8.8.8.8"), Some(IpAddr::V4(0x0808_0808)));
    assert_eq!(parse_ip("0.0.0.0"), Some(IpAddr::V4(0)));
    assert_eq!(parse_ip("255.255.255.255"), Some(IpAddr::V4(0xffff_ffff)));
    assert_eq!(parse_ip("256.1.1.1"), None);
    assert_eq!(parse_ip("01.1.1.1"), None);
    assert_eq!(parse_ip("1.1.1"), None);
    assert_eq!(parse_ip("1.1.1.1.1"), None);
    assert_eq!(parse_ip("1..1.1"), None);
    assert_eq!(parse_ip("1.1.1.1 "), None);
    assert_eq!(parse_ip("+1.1.1.1"), None);
    assert_eq!(parse_ip(""), None);
}

#[test]
fn ipv6_literals() {
    assert_eq!(parse_ip("::"), Some(IpAddr::V6(0)));
    assert_eq!(parse_ip("::1"), Some(IpAddr::V6(1)));
    assert_eq!(parse_ip("1::"), Some(IpAddr::V6(1u128 << 112)));
    assert_eq!(
        parse_ip("2001:DB8:0:0:0:0:0:ff"),
        Some(IpAddr::V6(0x2001_0db8_0000_0000_0000_0000_0000_00ff))
    );
    assert_eq!(
        parse_ip("::ffff:1.2.3.4"),
        Some(IpAddr::V6(0x0000_0000_0000_0000_0000_ffff_0102_0304))
    );
    assert_eq!(
        parse_ip("1:2:3:4:5:6:1.2.3.4"),
        Some(IpAddr::V6(0x0001_0002_0003_0004_0005_0006_0102_0304))
    );
    assert_eq!(
        parse_ip("ffff:ffff:ffff:ffff:ffff:ffff:ffff:ffff"),
        Some(IpAddr::V6(u128::MAX))
    );
    assert_eq!(parse_ip("1:2:3:4:5:6:7::"), Some(IpAddr::V6(0x0001_0002_0003_0004_0005_0006_0007_0000)));
    assert_eq!(parse_ip("1:2:3:4:5:6:7:8::"), None);
    assert_eq!(parse_ip("1:2:3:4:5:6:7"), None);
    assert_eq!(parse_ip("1:2:3:4:5:6:7:8:9"), None);
    assert_eq!(parse_ip("1::2::3"), None);
    assert_eq!(parse_ip(":::"), None);
    assert_eq!(parse_ip(":1::"), None);
    assert_eq!(parse_ip("12345::"), None);
    assert_eq!(parse_ip("1.2.3.4::"), None);
    assert_eq!(parse_ip("1:2:3:4:5:6:7:1.2.3.4"), None);
    assert_eq!(parse_ip("::g"), None);
}
