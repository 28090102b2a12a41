use satip_discovery::addr::{format_address, parse_address, Address};
use satip_discovery::errors::ErrorType;

fn addr(ip0: u8, ip1: u8, ip2: u8, ip3: u8, port: u16) -> Address {
    Address { ip0, ip1, ip2, ip3, port }
}

#[test]
fn parses_multicast_address() {
    let a = parse_address("239.255.255.250:1900").unwrap();
    assert_eq!(a, addr(239, 255, 255, 250, 1900));
}

#[test]
fn parses_any_address() {
    let a = parse_address("0.0.0.0:0").unwrap();
    assert_eq!(a, addr(0, 0, 0, 0, 0));
}

#[test]
fn round_trips_through_text() {
    let inputs = ["239.255.255.250:1900", "0.0.0.0:0", "10.0.0.9:65535", "1.2.3.4:80"];
    for text in inputs {
        let a = parse_address(text).unwrap();
        assert_eq!(format_address(&a), text);
    }
}

#[test]
fn round_trips_from_value() {
    let a = addr(192, 168, 0, 1, 8080);
    let text = format_address(&a);
    assert_eq!(text, "192.168.0.1:8080");
    assert_eq!(parse_address(&text).unwrap(), a);
}

#[test]
fn rejects_missing_port() {
    let e = parse_address("10.0.0.1").unwrap_err();
    assert!(matches!(e.error_type, ErrorType::InvalidIpFormat));
}

#[test]
fn rejects_non_numeric_host() {
    let e = parse_address("example.invalid:80").unwrap_err();
    assert!(matches!(e.error_type, ErrorType::InvalidIpFormat));
    assert_eq!(e.description(), "Could not parse address");
}

#[test]
fn rejects_malformed_texts() {
    let bad = [
        "",
        ":",
        ":80",
        "1.2.3:80",
        "1.2.3.4.5:80",
        "256.0.0.1:80",
        "1.2.3.4:65536",
        "1.2.3.4:",
        "01.2.3.4:80",
        "1.2.3.4:007",
        "1.2.3.4:80 ",
        " 1.2.3.4:80",
        "1.2.3.4:80x",
        "-1.2.3.4:80",
    ];
    for text in bad {
        let r = parse_address(text);
        assert!(r.is_err(), "accepted {:?}", text);
        assert!(matches!(r.unwrap_err().error_type, ErrorType::InvalidIpFormat));
    }
}
