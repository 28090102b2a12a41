//! The parsers are held against the crates that commonly read the same
//! wire formats: the header fields, the location URI and the description
//! fields the library extracts must agree with what those readers see.

use satip_discovery::addr::Address;
use satip_discovery::description::{extract_manufacturer, extract_model_name};
use satip_discovery::response::{parse_discovery_response, RawDiscoveryResponse};
use satip_discovery::uri::parse_uri_bytes;

const REPLY: &str = "HTTP/1.1 200 OK\r\n\
    LOCATION: http://10.0.0.5:8080/desc.xml?v=1\r\n\
    USN: uuid:abc::urn:x\r\n\
    \r\n";

fn raw_reply() -> RawDiscoveryResponse {
    let buffer = REPLY.as_bytes().to_vec();
    let size = buffer.len();
    RawDiscoveryResponse {
        buffer,
        size,
        sender_addr: Address { ip0: 10, ip1: 0, ip2: 0, ip3: 5, port: 1900 },
    }
}

#[test]
fn header_fields_agree_with_httparse() {
    let mut headers = [httparse::EMPTY_HEADER; 16];
    let mut response = httparse::Response::new(&mut headers);
    let status = response.parse(REPLY.as_bytes()).unwrap();
    assert!(status.is_complete());
    let mut location = None;
    let mut usn = None;
    for h in response.headers.iter() {
        if h.name.eq_ignore_ascii_case("location") {
            location = Some(String::from_utf8_lossy(h.value).to_string());
        }
        if h.name.eq_ignore_ascii_case("usn") {
            usn = Some(String::from_utf8_lossy(h.value).to_string());
        }
    }
    let parsed = parse_discovery_response(false, &raw_reply()).unwrap();
    assert_eq!(parsed.description_location.to_text(), location.unwrap());
    assert_eq!(parsed.usn, usn.unwrap());
}

#[test]
fn location_parts_agree_with_the_http_crate() {
    let parsed = parse_discovery_response(false, &raw_reply()).unwrap();
    let uri: http::Uri = parsed.description_location.to_text().parse().unwrap();
    assert_eq!(uri.scheme_str(), Some("http"));
    assert_eq!(uri.host(), Some("10.0.0.5"));
    assert_eq!(uri.port_u16(), Some(8080));
    assert_eq!(uri.path(), "/desc.xml");
    assert_eq!(uri.query(), Some("v=1"));
    let ours = parse_uri_bytes(&b"http://10.0.0.5:8080/desc.xml?v=1".to_vec()).unwrap();
    assert_eq!(ours.scheme, b"http".to_vec());
    assert_eq!(ours.host, b"10.0.0.5".to_vec());
    assert_eq!(ours.port, Some(8080));
    assert_eq!(ours.path, b"/desc.xml?v=1".to_vec());
}

#[test]
fn device_fields_agree_with_minidom() {
    let doc = "<root xmlns=\"urn:test\">\
        <device xmlns=\"urn:test\">\
        <manufacturer xmlns=\"urn:test\">ACME</manufacturer>\
        <modelName xmlns=\"urn:test\">Tuner9000</modelName>\
        </device></root>";
    let element: minidom::Element = doc.parse().unwrap();
    let device = element.get_child("device", "urn:test").unwrap();
    let manufacturer = device.get_child("manufacturer", "urn:test").unwrap().text();
    let model = device.get_child("modelName", "urn:test").unwrap().text();
    let bytes = doc.as_bytes().to_vec();
    assert_eq!(extract_manufacturer(&bytes), Some(manufacturer));
    assert_eq!(extract_model_name(&bytes), Some(model));
}
