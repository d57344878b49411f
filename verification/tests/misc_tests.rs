use netlabs::echo::processed_text;
use netlabs::heartbeat::ClientTable;
use netlabs::http_file::{
    file_name_for_target, get_request, not_found_response, ok_response_head, requested_file,
    split_response,
};
use netlabs::icons::{content_type_or_default, icon_content_type, IconManager};
use netlabs::peers::{MessageType, PeerAction, PeerMessage, PeerTable};
use netlabs::ping::PingStats;
use netlabs::products::{created_product, updated_product, CreateProductRequest, UpdateProductRequest};
use netlabs::traceroute::{
    checksum, classify_reply, create_icmp_packet, hop_columns, hop_summary, parse_icmp_error,
    reply_in_bounds, ProbeReply,
};

#[test]
fn http_request_target() {
    assert_eq!(requested_file(b"GET /docs/a.txt HTTP/1.1\r\nHost: x\r\n\r\n"), Some("docs/a.txt".to_string()));
    assert_eq!(requested_file(b"GET //b HTTP/1.1\r\n\r\n"), Some("b".to_string()));
    assert_eq!(requested_file(b"GET /a HTTP/1.1\r\nHost: x\r\n"), None);
    assert_eq!(requested_file(b"garbage\r\n\r\n"), None);
    assert_eq!(file_name_for_target(None), "");
    assert_eq!(file_name_for_target(Some("///x/y".to_string())), "x/y");
}

#[test]
fn http_responses() {
    assert_eq!(
        ok_response_head(12),
        "HTTP/1.1 200 OK\r\nContent-Length: 12\r\nConnection: close\r\n\r\n"
    );
    let body = "<meta charset='UTF-8'><h1>404 Not Found</h1><p>The requested file was not found ¯\\_(ツ)_/¯.</p>";
    assert_eq!(
        not_found_response(),
        format!(
            "HTTP/1.1 404 Not Found\r\nContent-Type: text/html\r\nContent-Length: {}\r\nConnection: close\r\n\r\n{}",
            body.len(),
            body
        )
    );
    assert_eq!(
        get_request("a.txt", "localhost:8080"),
        "GET /a.txt HTTP/1.1\r\nHost: localhost:8080\r\nConnection: close\r\n\r\n"
    );
    assert_eq!(
        get_request("/a.txt", "h"),
        "GET /a.txt HTTP/1.1\r\nHost: h\r\nConnection: close\r\n\r\n"
    );
}

#[test]
fn http_split_response() {
    let raw = b"HTTP/1.1 200 OK\r\nContent-Length: 5\r\n\r\nhello";
    let (head, body) = split_response(raw).expect("complete head");
    assert_eq!(head.code, Some(200));
    assert_eq!(head.version, Some(1));
    assert_eq!(head.reason, Some("OK".to_string()));
    assert_eq!(head.headers, vec![("Content-Length".to_string(), b"5".to_vec())]);
    assert_eq!(head.body_offset, raw.len() - 5);
    assert_eq!(body, b"hello".to_vec());
    assert!(split_response(b"HTTP/1.1 200 OK\r\n").is_none());
}

#[test]
fn icon_paths_and_types() {
    let m = IconManager::new("data");
    assert_eq!(m.icon_path(7), "data/7.img");
    assert_eq!(m.icon_path(-3), "data/-3.img");
    assert_eq!(IconManager::new("data/").icon_path(1), "data/1.img");
    assert_eq!(IconManager::new("").icon_path(1), "1.img");
    let png = [0x89, b'P', b'N', b'G', 0x0D, 0x0A, 0x1A, 0x0A, 0, 0, 0, 0];
    assert_eq!(icon_content_type(&png), "image/png");
    assert_eq!(icon_content_type(b"plain words"), "application/octet-stream");
    assert_eq!(content_type_or_default(None), "application/octet-stream");
    assert_eq!(content_type_or_default(Some("image/gif".to_string())), "image/gif");
}

#[test]
fn products() {
    let p = created_product(4, CreateProductRequest { name: "lamp".into(), description: "bright".into() });
    assert_eq!((p.id, p.name.as_str(), p.description.as_str()), (4, "lamp", "bright"));
    assert!(p.icon.is_none());
    let q = updated_product(4, p, UpdateProductRequest { name: None, description: Some("dim".into()) });
    assert_eq!((q.name.as_str(), q.description.as_str()), ("lamp", "dim"));
}

#[test]
fn heartbeat_table() {
    let mut t = ClientTable::new();
    assert!(t.heartbeat("1.2.3.4:5", 100));
    assert!(!t.heartbeat("1.2.3.4:5", 200));
    assert!(t.heartbeat("5.6.7.8:9", 150));
    let gone = t.expire(1200, 1000);
    assert_eq!(gone, vec!["5.6.7.8:9".to_string()]);
    let gone = t.expire(1200, 1000);
    assert!(gone.is_empty());
}

#[test]
fn ping_statistics() {
    let mut s = PingStats::new();
    assert_eq!(s.rtt_summary(), None);
    s.record_reply(30);
    s.record_timeout();
    s.record_reply(10);
    s.record_reply(20);
    assert_eq!(s.transmitted(), 4);
    assert_eq!(s.received(), 3);
    assert_eq!(s.rtt_summary(), Some((10, 30, 60)));
}

#[test]
fn peer_table() {
    let mut t: PeerTable<u32> = PeerTable::new();
    let me = 1u128;
    let started = PeerMessage { sender_id: 7, address: 70u32, payload: MessageType::Started };
    assert!(matches!(t.handle_message(me, started, 10), PeerAction::ReplyAlive(70)));
    let alive = PeerMessage { sender_id: 3, address: 30u32, payload: MessageType::Alive };
    assert!(matches!(t.handle_message(me, alive, 20), PeerAction::Nothing));
    let own = PeerMessage { sender_id: me, address: 10u32, payload: MessageType::Started };
    assert!(matches!(t.handle_message(me, own, 20), PeerAction::Nothing));
    assert_eq!(t.sorted_peers(), vec![(3, 30), (7, 70)]);
    t.expire(3015, 3000);
    assert_eq!(t.sorted_peers(), vec![(3, 30)]);
    let leaving = PeerMessage { sender_id: 3, address: 30u32, payload: MessageType::Leaving };
    t.handle_message(me, leaving, 3020);
    assert!(t.sorted_peers().is_empty());
}

#[test]
fn icmp_messages() {
    assert_eq!(parse_icmp_error(3, 3), "Port is unreachable");
    assert_eq!(parse_icmp_error(3, 13), "Destination Unreachable (Code 13)");
    assert_eq!(parse_icmp_error(11, 0), "Time to Live exceeded in transit");
    assert_eq!(parse_icmp_error(11, 9), "Time Exceeded (Code 9)");
    assert_eq!(parse_icmp_error(42, 1), "ICMP Type 42, ICMP Code 1");
    assert_eq!(parse_icmp_error(12, 0), "Parameter Problem");
}

#[test]
fn echo_request_bytes() {
    let p = create_icmp_packet(1, 0x1234);
    assert_eq!(p, vec![8, 0, 6, 250, 18, 52, 0, 1, 112, 105, 110, 103]);
    // a packet carrying its own checksum sums to zero
    assert_eq!(checksum(&p), 0);
}

fn ipv4_header() -> Vec<u8> {
    let mut h = vec![0u8; 20];
    h[0] = 0x45;
    h
}

#[test]
fn classify_probe_replies() {
    let mut echo = ipv4_header();
    echo.extend_from_slice(&[0, 0, 0, 0, 0x12, 0x34, 0, 1]);
    assert!(reply_in_bounds(&echo));
    assert!(matches!(classify_reply(&echo, 0x1234, 1), ProbeReply::Matched));
    assert!(matches!(classify_reply(&echo, 0x1234, 2), ProbeReply::Unmatched));
    let mut exceeded = ipv4_header();
    exceeded.extend_from_slice(&[11, 0, 0, 0, 0, 0, 0, 0]);
    exceeded.extend_from_slice(&ipv4_header());
    exceeded.extend_from_slice(&[8, 0, 0, 0, 0x12, 0x34, 0, 1]);
    assert!(reply_in_bounds(&exceeded));
    assert!(matches!(classify_reply(&exceeded, 0x1234, 1), ProbeReply::Matched));
    let mut unreachable = ipv4_header();
    unreachable.extend_from_slice(&[3, 1, 0, 0, 0, 0, 0, 0]);
    assert!(matches!(
        classify_reply(&unreachable, 1, 1),
        ProbeReply::Error { msg_type: 3, msg_code: 1 }
    ));
    assert!(matches!(classify_reply(&ipv4_header(), 1, 1), ProbeReply::Skip));
}

#[test]
fn hop_summaries() {
    let cells = hop_columns(&vec!["1.00ms".to_string()]);
    assert_eq!(cells, vec!["1.00ms".to_string(), "***".into(), "***".into()]);
    let four: Vec<String> = vec!["a".into(), "b".into(), "c".into(), "d".into()];
    assert_eq!(hop_columns(&four), vec!["a".to_string(), "b".into(), "c".into()]);
    assert_eq!(
        hop_summary(3, &Some(("host".to_string(), "10.0.0.1".to_string())), &vec!["1.50ms".to_string()]),
        "3: host (10.0.0.1)\t1.50ms\t***\t***"
    );
    assert_eq!(
        hop_summary(4, &None, &vec![]),
        "4: ***.***.***.*** (***.***.***.***)\t***\t***\t***"
    );
}

#[test]
fn echo_upper_cases() {
    assert_eq!(processed_text("hello, world"), "HELLO, WORLD");
    assert_eq!(processed_text("straße"), "STRASSE");
    assert_eq!(processed_text(""), "");
}
