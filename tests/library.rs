use wake_on_wan_server::digits::parse_unsigned;
use wake_on_wan_server::handler::{
    all_succeeded, classify, render_response, respond, select_response, Body, RequestKind, Status,
};
use wake_on_wan_server::packet::{magic_packet, wake_datagrams};
use wake_on_wan_server::pool::{JobQueue, Message};
use wake_on_wan_server::registry::{
    load_registry, parse_ipv4, parse_mac, registry_from_rows, split_bytes, Computer, LoadError,
};

const REGISTRY_A: &str = "mac;ip;port\n00-11-22-33-44-55;10.0.0.5;9\n";

fn scenario_computer() -> Computer {
    Computer::new([0x00, 0x11, 0x22, 0x33, 0x44, 0x55], [10, 0, 0, 5], 9)
}

#[test]
fn payload_has_header_and_sixteen_addresses() {
    let mac = [0x00, 0x11, 0x22, 0x33, 0x44, 0x55];
    let p = magic_packet(&mac);
    assert_eq!(p.len(), 102);
    assert_eq!(&p[0..6], &[0xFF; 6]);
    for k in 0..16 {
        assert_eq!(&p[6 + 6 * k..12 + 6 * k], &mac);
    }
}

#[test]
fn payload_of_broadcast_like_address() {
    let mac = [0xFF, 0xFF, 0xFF, 0xFF, 0xFF, 0xFF];
    let p = magic_packet(&mac);
    assert_eq!(p, vec![0xFF; 102]);
}

#[test]
fn computer_payload_matches_its_address() {
    let c = scenario_computer();
    assert_eq!(c.mac(), [0x00, 0x11, 0x22, 0x33, 0x44, 0x55]);
    assert_eq!(c.magic_packet(), magic_packet(&c.mac()));
}

#[test]
fn aggregate_is_conjunction() {
    assert!(all_succeeded(&[]));
    assert!(all_succeeded(&[true, true, true]));
    assert!(!all_succeeded(&[true, false, true]));
    assert!(!all_succeeded(&[false]));
}

#[test]
fn classification_of_requests() {
    assert_eq!(classify(b"GET / HTTP/1.1\r\n"), RequestKind::WakeTrigger);
    assert_eq!(classify(b"GET / HTTP/1.1\r\nHost: example\r\n\r\n"), RequestKind::WakeTrigger);
    assert_eq!(classify(b"POST /foo HTTP/1.1\r\n"), RequestKind::Unrecognized);
    assert_eq!(classify(b"GET /x HTTP/1.1\r\n"), RequestKind::Unrecognized);
    assert_eq!(classify(b"GET / HTTP/1.1"), RequestKind::Unrecognized);
    assert_eq!(classify(b""), RequestKind::Unrecognized);
}

#[test]
fn response_selection() {
    assert_eq!(select_response(RequestKind::WakeTrigger, true), (Status::Success, Body::Success));
    assert_eq!(
        select_response(RequestKind::WakeTrigger, false),
        (Status::ServiceUnavailable, Body::Error)
    );
    assert_eq!(select_response(RequestKind::Unrecognized, true), (Status::NotFound, Body::Error));
    assert_eq!(select_response(RequestKind::Unrecognized, false), (Status::NotFound, Body::Error));
}

#[test]
fn rendered_response_has_length_header() {
    let r = render_response(Status::Success, b"hello world!");
    assert_eq!(r, b"HTTP/1.1 200 OK\r\nContent-Length: 12\r\n\r\nhello world!".to_vec());
    let r = render_response(Status::NotFound, b"");
    assert_eq!(r, b"HTTP/1.1 404 Not Found\r\nContent-Length: 0\r\n\r\n".to_vec());
    let body = vec![b'x'; 1234];
    let r = render_response(Status::ServiceUnavailable, &body);
    let mut expected = b"HTTP/1.1 503 Service Unavailable\r\nContent-Length: 1234\r\n\r\n".to_vec();
    expected.extend_from_slice(&body);
    assert_eq!(r, expected);
}

#[test]
fn scenario_a_success() {
    let registry = load_registry(REGISTRY_A.as_bytes()).unwrap();
    assert_eq!(registry.len(), 1);
    let sends = wake_datagrams(&registry);
    assert_eq!(sends.len(), 1);
    assert_eq!(sends[0].ip, [10, 0, 0, 5]);
    assert_eq!(sends[0].port, 9);
    assert_eq!(sends[0].payload, magic_packet(&[0x00, 0x11, 0x22, 0x33, 0x44, 0x55]));
    let r = respond(b"GET / HTTP/1.1\r\nHost: a\r\n\r\n", &[true], b"woken", b"failed");
    assert_eq!(r, b"HTTP/1.1 200 OK\r\nContent-Length: 5\r\n\r\nwoken".to_vec());
}

#[test]
fn scenario_b_send_failure() {
    let r = respond(b"GET / HTTP/1.1\r\n\r\n", &[false], b"woken", b"failed");
    assert_eq!(r, b"HTTP/1.1 503 Service Unavailable\r\nContent-Length: 6\r\n\r\nfailed".to_vec());
}

#[test]
fn scenario_c_unrecognized_still_wakes() {
    let registry = load_registry(REGISTRY_A.as_bytes()).unwrap();
    assert_eq!(wake_datagrams(&registry).len(), registry.len());
    let r = respond(b"POST /foo HTTP/1.1\r\n\r\n", &[true], b"woken", b"failed");
    assert_eq!(r, b"HTTP/1.1 404 Not Found\r\nContent-Length: 6\r\n\r\nfailed".to_vec());
    let r = respond(b"POST /foo HTTP/1.1\r\n\r\n", &[false], b"woken", b"failed");
    assert_eq!(r, b"HTTP/1.1 404 Not Found\r\nContent-Length: 6\r\n\r\nfailed".to_vec());
}

#[test]
fn no_targets_is_success() {
    let registry = load_registry(b"mac;ip;port\n").unwrap();
    assert!(registry.is_empty());
    assert!(wake_datagrams(&registry).is_empty());
    let r = respond(b"GET / HTTP/1.1\r\n", &[], b"ok", b"no");
    assert_eq!(r, b"HTTP/1.1 200 OK\r\nContent-Length: 2\r\n\r\nok".to_vec());
}

#[test]
fn load_scenario_registry() {
    let registry = load_registry(REGISTRY_A.as_bytes()).unwrap();
    assert_eq!(registry[0].mac(), [0x00, 0x11, 0x22, 0x33, 0x44, 0x55]);
    assert_eq!(registry[0].ip, [10, 0, 0, 5]);
    assert_eq!(registry[0].port, 9);
}

#[test]
fn load_invalid_hex_mac_fails() {
    let text = "mac;ip;port\nZZ-11-22-33-44-55;10.0.0.5;9\n";
    let err = load_registry(text.as_bytes()).unwrap_err();
    assert_eq!(err, LoadError::InvalidMac);
    assert!(!err.message().is_empty());
}

#[test]
fn load_short_mac_fails() {
    let text = "mac;ip;port\n00-11-22-33-44;10.0.0.5;9\n";
    assert_eq!(load_registry(text.as_bytes()).unwrap_err(), LoadError::InvalidMac);
}

#[test]
fn load_invalid_port_fails() {
    let text = "mac;ip;port\n00-11-22-33-44-55;10.0.0.5;70000\n";
    assert_eq!(load_registry(text.as_bytes()).unwrap_err(), LoadError::InvalidPort);
    let text = "mac;ip;port\n00-11-22-33-44-55;10.0.0.5;nine\n";
    assert_eq!(load_registry(text.as_bytes()).unwrap_err(), LoadError::InvalidPort);
}

#[test]
fn load_invalid_ip_fails() {
    let text = "mac;ip;port\n00-11-22-33-44-55;10.0.0.256;9\n";
    assert_eq!(load_registry(text.as_bytes()).unwrap_err(), LoadError::InvalidIp);
}

#[test]
fn load_missing_ip_defaults_to_broadcast() {
    let text = "mac;ip;port\naa-bb-cc-dd-ee-ff;;7\n";
    let registry = load_registry(text.as_bytes()).unwrap();
    assert_eq!(registry[0].ip, [255, 255, 255, 255]);
    assert_eq!(registry[0].mac(), [0xAA, 0xBB, 0xCC, 0xDD, 0xEE, 0xFF]);
    let text = "port;mac\n7;AA-BB-CC-DD-EE-FF\n";
    let registry = load_registry(text.as_bytes()).unwrap();
    assert_eq!(registry[0].ip, [255, 255, 255, 255]);
    assert_eq!(registry[0].port, 7);
}

#[test]
fn load_missing_column_fails() {
    let text = "ip;port\n10.0.0.5;9\n";
    assert_eq!(load_registry(text.as_bytes()).unwrap_err(), LoadError::MissingField);
}

#[test]
fn load_ragged_rows_is_malformed() {
    let text = "mac;ip;port\n00-11-22-33-44-55;9\n";
    assert_eq!(load_registry(text.as_bytes()).unwrap_err(), LoadError::Malformed);
}

#[test]
fn load_keeps_row_order() {
    let text = "mac;ip;port\n00-00-00-00-00-01;10.0.0.1;9\n00-00-00-00-00-02;;10\n";
    let registry = load_registry(text.as_bytes()).unwrap();
    assert_eq!(registry.len(), 2);
    assert_eq!(registry[0].mac(), [0, 0, 0, 0, 0, 1]);
    assert_eq!(registry[1].mac(), [0, 0, 0, 0, 0, 2]);
    assert_eq!(registry[1].port, 10);
}

#[test]
fn rows_without_header_are_empty_registry() {
    assert!(registry_from_rows(&vec![]).unwrap().is_empty());
    assert!(load_registry(b"").unwrap().is_empty());
}

#[test]
fn split_pieces() {
    assert_eq!(split_bytes(b"a-b--c", b'-'), vec![b"a".to_vec(), b"b".to_vec(), vec![], b"c".to_vec()]);
    assert_eq!(split_bytes(b"", b'-'), vec![Vec::<u8>::new()]);
}

#[test]
fn unsigned_numbers() {
    assert_eq!(parse_unsigned(b"ff", 16, 255), Some(255));
    assert_eq!(parse_unsigned(b"+1F", 16, 255), Some(31));
    assert_eq!(parse_unsigned(b"100", 16, 255), None);
    assert_eq!(parse_unsigned(b"", 10, 65535), None);
    assert_eq!(parse_unsigned(b"+", 10, 65535), None);
    assert_eq!(parse_unsigned(b"65535", 10, 65535), Some(65535));
    assert_eq!(parse_unsigned(b"65536", 10, 65535), None);
    assert_eq!(parse_unsigned(b"99999999999999999999", 10, 65535), None);
    assert_eq!(parse_unsigned(b"12a", 10, 65535), None);
}

#[test]
fn addresses() {
    assert_eq!(parse_mac(b"0A-1b-2C-3d-4E-5f"), Some([0x0A, 0x1B, 0x2C, 0x3D, 0x4E, 0x5F]));
    assert_eq!(parse_mac(b"0A:1b:2C:3d:4E:5f"), None);
    assert_eq!(parse_mac(b"0A-1b-2C-3d-4E-5f-00"), None);
    assert_eq!(parse_ipv4(b"192.168.1.20"), Some([192, 168, 1, 20]));
    assert_eq!(parse_ipv4(b"255.255.255.255"), Some([255, 255, 255, 255]));
    assert_eq!(parse_ipv4(b"1.2.3"), None);
    assert_eq!(parse_ipv4(b"1.2.3.04"), None);
    assert_eq!(parse_ipv4(b"1.2..4"), None);
    assert_eq!(parse_ipv4(b"1.2.3.+4"), None);
}

#[test]
fn queue_hands_out_each_job_once() {
    let mut q: JobQueue<u32> = JobQueue::new();
    for j in 0..5u32 {
        assert!(q.submit(j).is_ok());
    }
    let mut seen = Vec::new();
    while let Some(m) = q.next() {
        match m {
            Message::NewJob(j) => seen.push(j),
            Message::Terminate => panic!("stop order before shutdown"),
        }
    }
    assert_eq!(seen, vec![0, 1, 2, 3, 4]);
}

#[test]
fn queue_shutdown_drains_then_stops() {
    let mut q: JobQueue<u32> = JobQueue::new();
    assert!(q.submit(7).is_ok());
    q.shutdown(2);
    assert!(!q.accepting());
    assert_eq!(q.submit(8), Err(8));
    assert!(matches!(q.next(), Some(Message::NewJob(7))));
    assert!(matches!(q.next(), Some(Message::Terminate)));
    assert!(matches!(q.next(), Some(Message::Terminate)));
    assert!(q.next().is_none());
}
