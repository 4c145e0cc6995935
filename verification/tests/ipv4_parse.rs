use camera_stream::ipv4::{parse_ip, try_parse_ip};

#[test]
fn parses_the_gateway_address() {
    assert_eq!(parse_ip("192.168.2.1"), [192, 168, 2, 1]);
    assert_eq!(parse_ip("0.0.0.0"), [0, 0, 0, 0]);
    assert_eq!(parse_ip("255.255.255.255"), [255, 255, 255, 255]);
}

#[test]
fn missing_pieces_stay_zero() {
    assert_eq!(try_parse_ip("10.1"), Some([10, 1, 0, 0]));
    assert_eq!(try_parse_ip("7"), Some([7, 0, 0, 0]));
}

#[test]
fn plus_sign_and_leading_zeros_are_accepted() {
    assert_eq!(try_parse_ip("+1.02.003.0255"), Some([1, 2, 3, 255]));
}

#[test]
fn malformed_addresses_are_rejected() {
    assert_eq!(try_parse_ip(""), None);
    assert_eq!(try_parse_ip("1.2.3.4.5"), None);
    assert_eq!(try_parse_ip("256.1.1.1"), None);
    assert_eq!(try_parse_ip("1..2.3"), None);
    assert_eq!(try_parse_ip("1.2.3."), None);
    assert_eq!(try_parse_ip("a.b.c.d"), None);
    assert_eq!(try_parse_ip("+.1.1.1"), None);
    assert_eq!(try_parse_ip("-1.1.1.1"), None);
    assert_eq!(try_parse_ip("1.2.3.99999999999"), None);
    assert_eq!(try_parse_ip("1. 2.3.4"), None);
}
