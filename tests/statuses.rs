use blockfast::utils::{parse_statuses, StatusListError};

#[test]
fn default_status_list() {
    let v = parse_statuses("10x,20x,30x,404,408").unwrap();
    let mut expected: Vec<u32> = Vec::new();
    expected.extend(100..110);
    expected.extend(200..210);
    expected.extend(300..310);
    expected.push(404);
    expected.push(408);
    assert_eq!(v, expected);
}

#[test]
fn century_wildcard() {
    let v = parse_statuses("4xx").unwrap();
    assert_eq!(v, (400..500).collect::<Vec<u32>>());
}

#[test]
fn exact_codes_keep_their_order() {
    assert_eq!(parse_statuses("404,200,+201").unwrap(), vec![404, 200, 201]);
}

#[test]
fn refused_tokens() {
    assert_eq!(parse_statuses(""), Err(StatusListError::InvalidStatus));
    assert_eq!(parse_statuses("200,"), Err(StatusListError::InvalidStatus));
    assert_eq!(parse_statuses("abc"), Err(StatusListError::InvalidStatus));
    assert_eq!(parse_statuses("4xxx"), Err(StatusListError::InvalidRange));
    assert_eq!(parse_statuses("xx"), Err(StatusListError::InvalidRange));
    assert_eq!(parse_statuses("4y"), Err(StatusListError::InvalidStatus));
    assert_eq!(parse_statuses("99999999xx"), Err(StatusListError::InvalidRange));
    assert_eq!(parse_statuses("4xx,bad,5x"), Err(StatusListError::InvalidStatus));
}
