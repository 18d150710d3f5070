use blockfast::addr::IpAddr;
use blockfast::generic::parse;
use blockfast::utils::{offender_of, parse_regex, ConfigError, ParseError, ParsingStatus};

const FAILED: &str =
    "Sep 26 06:25:19 livecompute sshd[23246]: Failed password for root from 179.124.36.195 port 41883 ssh2";

const SUCCESS: &str =
    "Sep 26 06:25:19 livecompute sshd[23246]: Successful login for root from 179.124.36.195 port 41883 ssh2";

#[test]
fn generic_positive() {
    let positive = "Failed password".to_string();
    let ip = parse_regex(r"from ([0-9a-fA-F:.]+) port").unwrap();

    let ret = parse(FAILED, &ip, Some(&positive), None).unwrap();
    match ret {
        ParsingStatus::BadEntry(_) => {}
        _ => panic!("bad parsing"),
    }

    let ret = parse(SUCCESS, &ip, Some(&positive), None).unwrap();
    match ret {
        ParsingStatus::OkEntry => {}
        _ => panic!("bad parsing"),
    }
}

#[test]
fn generic_negative() {
    let negative = "Successful login".to_string();
    let ip = parse_regex(r"from ([0-9a-fA-F:.]+) port").unwrap();

    let ret = parse(SUCCESS, &ip, None, Some(&negative)).unwrap();
    match ret {
        ParsingStatus::OkEntry => {}
        _ => panic!("bad parsing"),
    }

    let ret = parse(FAILED, &ip, None, Some(&negative)).unwrap();
    match ret {
        ParsingStatus::BadEntry(_) => {}
        _ => panic!("bad parsing"),
    }
}

#[test]
fn generic_modes_are_complements() {
    let f = "Failed password".to_string();
    let ip = parse_regex(r"from ([0-9a-fA-F:.]+) port").unwrap();
    let offender = Ok(ParsingStatus::BadEntry(IpAddr::V4(0xb37c_24c3)));
    for line in [FAILED, SUCCESS] {
        let pos = parse(line, &ip, Some(&f), None);
        let neg = parse(line, &ip, None, Some(&f));
        assert!((pos == Ok(ParsingStatus::OkEntry)) != (neg == Ok(ParsingStatus::OkEntry)));
        assert!(pos == offender || neg == offender);
    }
}

#[test]
fn generic_unmatched_address_fails() {
    let f = "Failed".to_string();
    let ip = parse_regex(r"from ([0-9a-fA-F:.]+) port").unwrap();
    assert_eq!(parse("Failed for everyone", &ip, Some(&f), None), Err(ParseError::Address));
    assert_eq!(parse("Failed from 300.1.1.1 port 2", &ip, Some(&f), None), Err(ParseError::Address));
}

#[test]
fn generic_invalid_pattern() {
    assert!(matches!(parse_regex("from ([0-9"), Err(ConfigError::InvalidPattern)));
}

#[test]
fn offender_tokens() {
    assert_eq!(offender_of(Some("10.0.0.1")), Ok(ParsingStatus::BadEntry(IpAddr::V4(0x0a00_0001))));
    assert_eq!(offender_of(Some("::1")), Ok(ParsingStatus::BadEntry(IpAddr::V6(1))));
    assert_eq!(offender_of(Some("10.0.0")), Err(ParseError::Address));
    assert_eq!(offender_of(None), Err(ParseError::Address));
}
