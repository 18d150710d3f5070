use blockfast::addr::IpAddr;
use blockfast::clf::{classify, parse, ClfPatterns};
use blockfast::utils::{ParseError, ParsingStatus};

#[test]
fn clf_positive() {
    let patterns = ClfPatterns::new().unwrap();
    let vectors = [
        "8.8.8.8 - p [25/Sep/2021:13:49:56 +0200] \"POST /some/rpc HTTP/2.0\" 401 923",
        "8.8.8.8 - p [25/Sep/2021:13:49:56 +0200] \"POST /some/rpc HTTP/2.0\" 429 923",
    ];

    vectors.iter().for_each(|e| {
        let ret = parse(&patterns, *e, &vec![200, 404]).unwrap();
        match ret {
            ParsingStatus::BadEntry(_) => {}
            _ => panic!("bad parsing"),
        }
    })
}

#[test]
fn clf_negative() {
    let patterns = ClfPatterns::new().unwrap();
    let vectors = [
        "8.8.8.8 - p [25/Sep/2021:13:49:56 +0200] \"POST /some/rpc HTTP/2.0\" 200 923",
        "8.8.8.8 - p [25/Sep/2021:13:49:56 +0200] \"POST /some/rpc HTTP/2.0\" 404 923",
    ];

    vectors.iter().for_each(|e| {
        let ret = parse(&patterns, *e, &vec![200, 404]).unwrap();
        match ret {
            ParsingStatus::OkEntry => {}
            _ => panic!("bad parsing"),
        }
    })
}

#[test]
fn clf_malformed() {
    let patterns = ClfPatterns::new().unwrap();
    let vectors = [
        "8.8.8.8.8 - p [25/Sep/2021:13:49:56 +0200] \"POST /some/rpc HTTP/2.0\" 200 923",
        "8.8.8.8 - p [25/Sep/2021:13:49:56 +0200] \"POST /some/rpc HTTP/2.0\"",
    ];

    vectors.iter().for_each(|e| {
        let ret = parse(&patterns, *e, &vec![200, 404]);
        assert!(ret.is_err());
    })
}

#[test]
fn clf_offender_is_the_line_address() {
    let patterns = ClfPatterns::new().unwrap();
    let line = "8.8.8.8 - p [25/Sep/2021:13:49:56 +0200] \"POST /some/rpc HTTP/2.0\" 429 923";
    let ret = parse(&patterns, line, &vec![200, 404]);
    assert_eq!(ret, Ok(ParsingStatus::BadEntry(IpAddr::V4(0x0808_0808))));
}

#[test]
fn clf_same_line_with_200_is_benign() {
    let patterns = ClfPatterns::new().unwrap();
    let line = "8.8.8.8 - p [25/Sep/2021:13:49:56 +0200] \"POST /some/rpc HTTP/2.0\" 200 923";
    assert_eq!(parse(&patterns, line, &vec![200, 404]), Ok(ParsingStatus::OkEntry));
}

#[test]
fn clf_errors_name_the_missing_field() {
    let patterns = ClfPatterns::new().unwrap();
    let bad_ip = "8.8.8.8.8 - p [25/Sep/2021:13:49:56 +0200] \"POST /some/rpc HTTP/2.0\" 200 923";
    assert_eq!(parse(&patterns, bad_ip, &vec![200]), Err(ParseError::Address));
    let no_status = "8.8.8.8 - p [25/Sep/2021:13:49:56 +0200] \"POST /some/rpc HTTP/2.0\"";
    assert_eq!(parse(&patterns, no_status, &vec![200]), Err(ParseError::Status));
}

#[test]
fn clf_ipv6_address() {
    let patterns = ClfPatterns::new().unwrap();
    let line = "2001:db8::1 - - [25/Sep/2021:13:49:56 +0200] \"GET / HTTP/1.1\" 403 12";
    assert_eq!(
        parse(&patterns, line, &vec![200]),
        Ok(ParsingStatus::BadEntry(IpAddr::V6(0x2001_0db8_0000_0000_0000_0000_0000_0001)))
    );
}

#[test]
fn clf_classify_tokens() {
    assert_eq!(classify(Some("1.2.3.4"), Some("500"), &[200]), Ok(ParsingStatus::BadEntry(IpAddr::V4(0x0102_0304))));
    assert_eq!(classify(Some("1.2.3.4"), Some("200"), &[200]), Ok(ParsingStatus::OkEntry));
    assert_eq!(classify(None, Some("200"), &[200]), Err(ParseError::Address));
    assert_eq!(classify(Some("1.2.3.4"), None, &[200]), Err(ParseError::Status));
    assert_eq!(classify(Some("1.2.3.4"), Some("99999999999"), &[200]), Err(ParseError::Status));
    assert_eq!(classify(Some("localhost"), Some("200"), &[200]), Err(ParseError::Address));
}
