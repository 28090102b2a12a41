use satip_discovery::addr::Address;
use satip_discovery::config::{default_config, Config};
use satip_discovery::discovery::{
    run_discovery, translate_timeout_error, DiscoveryEvent, DiscoveryRun, RunPhase, WaitOutcome,
};
use satip_discovery::errors::{Error, ErrorType};
use satip_discovery::response::RawDiscoveryResponse;

fn responder() -> Address {
    Address { ip0: 10, ip1: 0, ip2: 0, ip3: 5, port: 1900 }
}

fn datagram_from(payload: &str, sender: Address) -> RawDiscoveryResponse {
    let buffer = payload.as_bytes().to_vec();
    let size = buffer.len();
    RawDiscoveryResponse { buffer, size, sender_addr: sender }
}

fn good_reply() -> RawDiscoveryResponse {
    datagram_from(
        "HTTP/1.1 200 OK\r\n\
         LOCATION: http://10.0.0.5/desc.xml\r\n\
         USN: uuid:abc::urn:x\r\n\
         \r\n",
        responder(),
    )
}

fn good_document() -> Vec<u8> {
    "<root><device><manufacturer>ACME</manufacturer><modelName>Tuner9000</modelName></device></root>"
        .as_bytes()
        .to_vec()
}

#[test]
fn one_responder_yields_one_populated_record() {
    let events = vec![
        DiscoveryEvent::Datagram(good_reply(), Some(good_document())),
        DiscoveryEvent::WindowElapsed,
    ];
    let servers = run_discovery(default_config(), true, true, &events).unwrap();
    assert_eq!(servers.len(), 1);
    assert_eq!(servers[0].manufacturer, Some("ACME".to_string()));
    assert_eq!(servers[0].model_name, Some("Tuner9000".to_string()));
    assert_eq!(servers[0].response.usn, "uuid:abc::urn:x");
    assert_eq!(servers[0].response.description_location.to_text(), "http://10.0.0.5/desc.xml");
}

#[test]
fn no_replies_is_an_empty_list_not_an_error() {
    let events = vec![DiscoveryEvent::WindowElapsed];
    let servers = run_discovery(default_config(), true, true, &events).unwrap();
    assert!(servers.is_empty());
}

#[test]
fn a_script_without_an_end_still_completes() {
    let events: Vec<DiscoveryEvent> = Vec::new();
    let servers = run_discovery(default_config(), true, true, &events).unwrap();
    assert!(servers.is_empty());
}

#[test]
fn one_unparseable_reply_costs_only_its_own_record() {
    let events = vec![
        DiscoveryEvent::Datagram(datagram_from("not a response at all", responder()), None),
        DiscoveryEvent::Datagram(good_reply(), Some(good_document())),
        DiscoveryEvent::WindowElapsed,
    ];
    let servers = run_discovery(default_config(), true, true, &events).unwrap();
    assert_eq!(servers.len(), 1);
    assert_eq!(servers[0].manufacturer, Some("ACME".to_string()));
}

#[test]
fn a_failed_fetch_drops_only_that_device() {
    let events = vec![
        DiscoveryEvent::Datagram(good_reply(), None),
        DiscoveryEvent::Datagram(good_reply(), Some(good_document())),
        DiscoveryEvent::WindowElapsed,
    ];
    let servers = run_discovery(default_config(), true, true, &events).unwrap();
    assert_eq!(servers.len(), 1);
}

#[test]
fn replies_after_the_window_are_ignored() {
    let events = vec![
        DiscoveryEvent::WindowElapsed,
        DiscoveryEvent::Datagram(good_reply(), Some(good_document())),
    ];
    let servers = run_discovery(default_config(), true, true, &events).unwrap();
    assert!(servers.is_empty());
}

#[test]
fn a_malformed_bind_address_is_fatal() {
    let mut config = default_config();
    config.bind_address = "not-an-address".to_string();
    let e = run_discovery(config, true, true, &Vec::new()).unwrap_err();
    assert!(matches!(e.error_type, ErrorType::InvalidIpFormat));
}

#[test]
fn a_bind_failure_is_fatal() {
    let e = run_discovery(default_config(), false, true, &Vec::new()).unwrap_err();
    assert!(matches!(e.error_type, ErrorType::CouldNotBindUdpSocket));
}

#[test]
fn a_send_failure_is_fatal() {
    let e = run_discovery(default_config(), true, false, &Vec::new()).unwrap_err();
    assert!(matches!(e.error_type, ErrorType::SendUdpRequestError));
}

#[test]
fn a_transport_failure_while_waiting_is_fatal() {
    let events = vec![
        DiscoveryEvent::Datagram(good_reply(), Some(good_document())),
        DiscoveryEvent::TransportFailed,
    ];
    let e = run_discovery(default_config(), true, true, &events).unwrap_err();
    assert!(matches!(e.error_type, ErrorType::ReceivingDiscoveryMessageError));
}

#[test]
fn a_timer_failure_while_waiting_is_fatal() {
    let events = vec![DiscoveryEvent::TimerFailed];
    let e = run_discovery(default_config(), true, true, &events).unwrap_err();
    assert!(matches!(e.error_type, ErrorType::ServerDiscoveryTimeoutError));
}

#[test]
fn the_run_walks_its_phases() {
    let mut run = DiscoveryRun::new(default_config()).unwrap();
    assert_eq!(run.phase, RunPhase::Idle);
    assert_eq!(
        run.broadcast_address,
        Address { ip0: 239, ip1: 255, ip2: 255, ip3: 250, port: 1900 }
    );
    let request = run.request_bytes();
    assert!(request.starts_with(b"M-SEARCH * HTTP/1.1\r\n"));
    run.on_bind(true);
    assert_eq!(run.phase, RunPhase::Bound);
    run.on_send(true);
    assert_eq!(run.phase, RunPhase::RequestSent);
    run.start_collecting();
    assert_eq!(run.phase, RunPhase::Collecting);
    let parsed = run.on_datagram(&good_reply()).unwrap();
    run.on_description(parsed, Some(&good_document()));
    run.on_window_elapsed();
    assert_eq!(run.phase, RunPhase::Completed);
    let servers = run.into_result().unwrap();
    assert_eq!(servers.len(), 1);
}

#[test]
fn an_oversized_size_field_discards_the_datagram() {
    let mut raw = good_reply();
    raw.size = raw.buffer.len() + 1;
    let events = vec![DiscoveryEvent::Datagram(raw, Some(good_document())), DiscoveryEvent::WindowElapsed];
    let servers = run_discovery(default_config(), true, true, &events).unwrap();
    assert!(servers.is_empty());
}

#[test]
fn translate_timeout_outcomes() {
    let r: Result<Option<u32>, Error> = translate_timeout_error(WaitOutcome::Value(7));
    assert_eq!(r.unwrap(), Some(7));
    let r: Result<Option<u32>, Error> = translate_timeout_error(WaitOutcome::Elapsed);
    assert_eq!(r.unwrap(), None);
    let inner = Error::new(ErrorType::ReceivingDiscoveryMessageError, "boom");
    let r: Result<Option<u32>, Error> = translate_timeout_error(WaitOutcome::Inner(inner));
    assert!(matches!(
        r.unwrap_err().error_type,
        ErrorType::ReceivingDiscoveryMessageError
    ));
    let r: Result<Option<u32>, Error> = translate_timeout_error(WaitOutcome::TimerFault);
    assert!(matches!(r.unwrap_err().error_type, ErrorType::ServerDiscoveryTimeoutError));
    let r: Result<Option<u32>, Error> = translate_timeout_error(WaitOutcome::Unknown);
    assert!(matches!(
        r.unwrap_err().error_type,
        ErrorType::ServerDiscoveryUnknownTimeoutError
    ));
}

#[test]
fn repeated_runs_share_one_configuration() {
    let config = Config {
        bind_address: "127.0.0.1:0".to_string(),
        discovery_broadcast_address: "239.255.255.250:1900".to_string(),
        discovery_wait_time: 100,
        user_agent: "test/1.0".to_string(),
        prefer_source_addr: true,
    };
    let first = run_discovery(config.clone(), true, true, &vec![DiscoveryEvent::WindowElapsed]);
    let second = run_discovery(config, true, true, &vec![DiscoveryEvent::WindowElapsed]);
    assert!(first.unwrap().is_empty());
    assert!(second.unwrap().is_empty());
}

#[test]
fn source_preference_applies_end_to_end() {
    let reply = datagram_from(
        "HTTP/1.1 200 OK\r\nLOCATION: http://1.2.3.4/desc.xml\r\n\r\n",
        Address { ip0: 10, ip1: 0, ip2: 0, ip3: 9, port: 1900 },
    );
    let mut config = default_config();
    config.prefer_source_addr = true;
    let events = vec![
        DiscoveryEvent::Datagram(reply, Some(good_document())),
        DiscoveryEvent::WindowElapsed,
    ];
    let servers = run_discovery(config, true, true, &events).unwrap();
    assert_eq!(servers.len(), 1);
    assert_eq!(servers[0].response.description_location.to_text(), "http://10.0.0.9/desc.xml");
}
