use satip_discovery::errors::ErrorType;
use satip_discovery::fetch::{build_get_request, extract_description_body};
use satip_discovery::uri::parse_uri_bytes;

fn uri(text: &str) -> satip_discovery::uri::DescriptionUri {
    parse_uri_bytes(&text.as_bytes().to_vec()).unwrap()
}

#[test]
fn renders_the_exact_get_request() {
    let u = uri("http://10.0.0.5:8080/desc.xml");
    let bytes = build_get_request(&u);
    let expected = "GET /desc.xml HTTP/1.1\r\nHost: 10.0.0.5:8080\r\nConnection: close\r\n\r\n";
    assert_eq!(bytes, expected.as_bytes());
}

#[test]
fn an_empty_path_is_fetched_as_root() {
    let u = uri("http://10.0.0.5");
    let bytes = build_get_request(&u);
    let expected = "GET / HTTP/1.1\r\nHost: 10.0.0.5\r\nConnection: close\r\n\r\n";
    assert_eq!(bytes, expected.as_bytes());
}

#[test]
fn uri_parsing_round_trips() {
    for text in [
        "http://10.0.0.5/desc.xml",
        "http://10.0.0.5:8080/a/b?c=d",
        "https://host-name",
        "http://10.0.0.5:80",
    ] {
        assert_eq!(uri(text).to_text(), text);
    }
}

#[test]
fn malformed_uris_are_rejected() {
    for text in ["", "no scheme", "http//x", "http://", "http://:80/x", "http://h:99999/x", "1http://x"] {
        assert!(parse_uri_bytes(&text.as_bytes().to_vec()).is_none(), "accepted {:?}", text);
    }
}

#[test]
fn body_is_cut_to_content_length() {
    let reply = "HTTP/1.1 200 OK\r\nContent-Length: 5\r\n\r\nhellotrailing";
    let body = extract_description_body(&reply.as_bytes().to_vec()).unwrap();
    assert_eq!(body, b"hello".to_vec());
}

#[test]
fn body_without_length_is_the_rest() {
    let reply = "HTTP/1.1 200 OK\r\nServer: x\r\n\r\n<root/>";
    let body = extract_description_body(&reply.as_bytes().to_vec()).unwrap();
    assert_eq!(body, b"<root/>".to_vec());
}

#[test]
fn short_body_is_an_error() {
    let reply = "HTTP/1.1 200 OK\r\nContent-Length: 50\r\n\r\nhello";
    let e = extract_description_body(&reply.as_bytes().to_vec()).unwrap_err();
    assert!(matches!(e.error_type, ErrorType::CouldNotRetrieveServerDescription));
}

#[test]
fn unusable_length_is_an_error() {
    let reply = "HTTP/1.1 200 OK\r\nContent-Length: five\r\n\r\nhello";
    let e = extract_description_body(&reply.as_bytes().to_vec()).unwrap_err();
    assert!(matches!(e.error_type, ErrorType::CouldNotRetrieveServerDescription));
}

#[test]
fn truncated_reply_is_an_error() {
    let reply = "HTTP/1.1 200 OK\r\nContent-Length: 5\r\n";
    let e = extract_description_body(&reply.as_bytes().to_vec()).unwrap_err();
    assert!(matches!(e.error_type, ErrorType::CouldNotRetrieveServerDescription));
}
