use satip_discovery::addr::Address;
use satip_discovery::errors::ErrorType;
use satip_discovery::response::{parse_discovery_response, RawDiscoveryResponse};

fn raw_from(payload: &str, sender: Address) -> RawDiscoveryResponse {
    let buffer = payload.as_bytes().to_vec();
    let size = buffer.len();
    RawDiscoveryResponse { buffer, size, sender_addr: sender }
}

fn sender() -> Address {
    Address { ip0: 10, ip1: 0, ip2: 0, ip3: 9, port: 1900 }
}

#[test]
fn parses_well_formed_response() {
    let raw = raw_from(
        "HTTP/1.1 200 OK\r\n\
         LOCATION: http://10.0.0.5/desc.xml\r\n\
         USN: uuid:abc::urn:x\r\n\
         \r\n",
        sender(),
    );
    let resp = parse_discovery_response(false, &raw).unwrap();
    assert_eq!(resp.usn, "uuid:abc::urn:x");
    assert_eq!(resp.description_location.to_text(), "http://10.0.0.5/desc.xml");
}

#[test]
fn header_names_match_case_insensitively() {
    let raw = raw_from(
        "HTTP/1.1 200 OK\r\n\
         Location: http://10.0.0.5:8080/desc.xml\r\n\
         usn: uuid:abc\r\n\
         \r\n",
        sender(),
    );
    let resp = parse_discovery_response(false, &raw).unwrap();
    assert_eq!(resp.usn, "uuid:abc");
    assert_eq!(resp.description_location.to_text(), "http://10.0.0.5:8080/desc.xml");
}

#[test]
fn missing_usn_defaults_to_empty() {
    let raw = raw_from(
        "HTTP/1.1 200 OK\r\nLOCATION: http://10.0.0.5/desc.xml\r\n\r\n",
        sender(),
    );
    let resp = parse_discovery_response(false, &raw).unwrap();
    assert_eq!(resp.usn, "");
}

#[test]
fn missing_location_is_a_distinct_error() {
    let raw = raw_from("HTTP/1.1 200 OK\r\nUSN: uuid:abc\r\n\r\n", sender());
    let e = parse_discovery_response(false, &raw).unwrap_err();
    assert!(matches!(e.error_type, ErrorType::MissingLocationHeader));
}

#[test]
fn unparseable_location_is_a_distinct_error() {
    let raw = raw_from(
        "HTTP/1.1 200 OK\r\nLOCATION: not a uri\r\n\r\n",
        sender(),
    );
    let e = parse_discovery_response(false, &raw).unwrap_err();
    assert!(matches!(e.error_type, ErrorType::InvalidDescriptionLocation));
}

#[test]
fn truncated_response_reads_as_incomplete() {
    let raw = raw_from(
        "HTTP/1.1 200 OK\r\nLOCATION: http://10.0.0.5/desc.xml\r\n",
        sender(),
    );
    let e = parse_discovery_response(false, &raw).unwrap_err();
    assert!(matches!(e.error_type, ErrorType::IncompleteDiscoveryResponse));
}

#[test]
fn garbage_reads_as_malformed() {
    let raw = raw_from("NOTIFY * HTTP/1.1\r\nHOST: x\r\n\r\n", sender());
    let e = parse_discovery_response(false, &raw).unwrap_err();
    assert!(matches!(e.error_type, ErrorType::CouldNotParseDiscoveryResponse));
}

#[test]
fn header_line_without_colon_is_malformed() {
    let raw = raw_from("HTTP/1.1 200 OK\r\nBADLINE\r\n\r\n", sender());
    let e = parse_discovery_response(false, &raw).unwrap_err();
    assert!(matches!(e.error_type, ErrorType::CouldNotParseDiscoveryResponse));
}

#[test]
fn prefer_source_addr_rewrites_host() {
    let raw = raw_from(
        "HTTP/1.1 200 OK\r\nLOCATION: http://1.2.3.4/desc.xml\r\n\r\n",
        sender(),
    );
    let resp = parse_discovery_response(true, &raw).unwrap();
    assert_eq!(resp.description_location.to_text(), "http://10.0.0.9/desc.xml");
    assert_eq!(resp.description_location.host, b"10.0.0.9".to_vec());
    assert_eq!(resp.description_location.scheme, b"http".to_vec());
    assert_eq!(resp.description_location.path, b"/desc.xml".to_vec());
}

#[test]
fn without_the_flag_the_advertised_host_stays() {
    let raw = raw_from(
        "HTTP/1.1 200 OK\r\nLOCATION: http://1.2.3.4/desc.xml\r\n\r\n",
        sender(),
    );
    let resp = parse_discovery_response(false, &raw).unwrap();
    assert_eq!(resp.description_location.to_text(), "http://1.2.3.4/desc.xml");
}

#[test]
fn oversized_buffer_is_cut_to_its_size() {
    let text = "HTTP/1.1 200 OK\r\nLOCATION: http://10.0.0.5/desc.xml\r\n\r\n";
    let mut buffer = text.as_bytes().to_vec();
    let size = buffer.len();
    buffer.extend_from_slice(&[0u8; 64]);
    let raw = RawDiscoveryResponse { buffer, size, sender_addr: sender() };
    let resp = parse_discovery_response(false, &raw).unwrap();
    assert_eq!(resp.description_location.to_text(), "http://10.0.0.5/desc.xml");
}
