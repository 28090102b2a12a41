use satip_discovery::addr::Address;
use satip_discovery::config::default_config;
use satip_discovery::request::search_servers_request;

#[test]
fn renders_the_exact_wire_request() {
    let target = Address { ip0: 239, ip1: 255, ip2: 255, ip3: 250, port: 1900 };
    let bytes = search_servers_request(&target, "Linux/1.0 UPnP/1.1 ernasatip/1.0");
    let expected = "M-SEARCH * HTTP/1.1\r\n\
                    HOST: 239.255.255.250:1900\r\n\
                    MAN: ssdp:discover\r\n\
                    MX: 2\r\n\
                    ST: urn:ses-com:device:SatIPServer:1\r\n\
                    USER-AGENT: Linux/1.0 UPnP/1.1 ernasatip/1.0\r\n\
                    \r\n";
    assert_eq!(bytes, expected.as_bytes());
}

#[test]
fn header_lines_stand_in_order() {
    let target = Address { ip0: 10, ip1: 0, ip2: 0, ip3: 1, port: 1900 };
    let bytes = search_servers_request(&target, "test-agent/1.0");
    let text = String::from_utf8(bytes).unwrap();
    let host = text.find("HOST: 10.0.0.1:1900\r\n").unwrap();
    let man = text.find("MAN: ssdp:discover\r\n").unwrap();
    let mx = text.find("MX: 2\r\n").unwrap();
    let st = text.find("ST: urn:ses-com:device:SatIPServer:1\r\n").unwrap();
    let ua = text.find("USER-AGENT: test-agent/1.0\r\n").unwrap();
    assert!(text.starts_with("M-SEARCH * HTTP/1.1\r\n"));
    assert!(host < man && man < mx && mx < st && st < ua);
    assert!(text.ends_with("\r\n\r\n"));
}

#[test]
fn default_config_matches_the_protocol() {
    let c = default_config();
    assert_eq!(c.bind_address, "0.0.0.0:0");
    assert_eq!(c.discovery_broadcast_address, "239.255.255.250:1900");
    assert_eq!(c.discovery_wait_time, 5000);
    assert_eq!(c.user_agent, "Linux/1.0 UPnP/1.1 ernasatip/1.0");
    assert!(!c.prefer_source_addr);
}
