use patme::osc_discovery::{
    apply_status, continue_reading, header_complete, is_vrchat_service, oscquery_http_reply, oscquery_reply_bytes,
    query_response, request_target, DiscoveryEvent, VrchatTracker, OSCQUERY_AVATAR,
    OSCQUERY_NOT_FOUND, OSCQUERY_ROOT,
};

fn host_info(port: u16) -> String {
    format!(r#"{{"NAME":"PatMe-in-VR","OSC_PORT":{port},"OSC_TRANSPORT":"UDP","EXTENSIONS":{{}}}}"#)
}

fn response(status: &str, body: &str) -> String {
    format!(
        "HTTP/1.1 {status}\r\nContent-Type: application/json\r\nContent-Length: {}\r\nConnection: close\r\n\r\n{body}",
        body.len()
    )
}

#[test]
fn vrchat_services_are_recognised() {
    assert!(is_vrchat_service("VRChat-Client-1A2B3C._oscjson._tcp.local."));
    assert!(is_vrchat_service("vrchat-client-x"));
    assert!(is_vrchat_service("VRCHAT-CLIENT-"));
    assert!(!is_vrchat_service("VRChat-Client"));
    assert!(!is_vrchat_service("PatMe-in-VR._oscjson._tcp.local."));
    assert!(!is_vrchat_service(""));
    assert!(!is_vrchat_service("VRChat_Client-1"));
    assert!(!is_vrchat_service("VRChat-Cliént-1"));
    assert!(!is_vrchat_service("\u{212a}VRChat-Client-"));
}

#[test]
fn nodes_are_answered() {
    assert_eq!(query_response("/", 9001), ("200 OK", OSCQUERY_ROOT.to_string()));
    assert_eq!(query_response("/avatar", 9001), ("200 OK", OSCQUERY_AVATAR.to_string()));
    assert_eq!(query_response("/avatar/", 9001), ("200 OK", OSCQUERY_AVATAR.to_string()));
    assert_eq!(query_response("/avatar?x=1", 9001), ("200 OK", OSCQUERY_AVATAR.to_string()));
    assert_eq!(query_response("/other", 9001), ("404 Not Found", OSCQUERY_NOT_FOUND.to_string()));
    assert_eq!(query_response("", 9001), ("404 Not Found", r#"{"ERROR":"Not found"}"#.to_string()));
    assert_eq!(query_response("/avatar//", 9001).0, "404 Not Found");
}

#[test]
fn host_info_is_answered_for_any_path() {
    assert_eq!(query_response("/?HOST_INFO", 9001), ("200 OK", host_info(9001)));
    assert_eq!(query_response("/nothing?host_info", 0), ("200 OK", host_info(0)));
    assert_eq!(query_response("/?a=1&Host_Info=2", 65535), ("200 OK", host_info(65535)));
    assert_eq!(query_response("/?HOST_INFO=", 9000), ("200 OK", host_info(9000)));
    assert_eq!(query_response("/?x?HOST_INFO", 1), ("200 OK", OSCQUERY_ROOT.to_string()));
    assert_eq!(query_response("/?HOST_INFOX", 1), ("200 OK", OSCQUERY_ROOT.to_string()));
    assert_eq!(query_response("/?a=HOST_INFO", 1), ("200 OK", OSCQUERY_ROOT.to_string()));
    assert_eq!(query_response("/avatar?&&HOST_INFO&", 12), ("200 OK", host_info(12)));
}

#[test]
fn request_targets_come_from_the_request_line() {
    assert_eq!(request_target("GET /avatar HTTP/1.1\r\nHost: x\r\n\r\n"), "/avatar");
    assert_eq!(request_target("GET  \t /?HOST_INFO  HTTP/1.1\r\n\r\n"), "/?HOST_INFO");
    assert_eq!(request_target(""), "/");
    assert_eq!(request_target("GET\r\nHost: /x\r\n"), "/");
    assert_eq!(request_target("GET /a"), "/a");
    assert_eq!(request_target("GET\u{a0}/b HTTP/1.1"), "/b");
    assert_eq!(request_target("\n GET /c"), "/");
}

#[test]
fn replies_are_complete_http_responses() {
    assert_eq!(
        oscquery_http_reply("GET /?HOST_INFO HTTP/1.1\r\n\r\n", 9001),
        response("200 OK", &host_info(9001))
    );
    assert_eq!(oscquery_http_reply("GET / HTTP/1.1\r\n\r\n", 9001), response("200 OK", OSCQUERY_ROOT));
    assert_eq!(
        oscquery_http_reply("GET /nope HTTP/1.1\r\n\r\n", 9001),
        response("404 Not Found", OSCQUERY_NOT_FOUND)
    );
    assert_eq!(oscquery_http_reply("", 7), response("200 OK", OSCQUERY_ROOT));
}

#[test]
fn raw_requests_are_decoded_lossily() {
    assert_eq!(
        oscquery_reply_bytes(b"GET /avatar HTTP/1.1\r\n\r\n", 9001),
        response("200 OK", OSCQUERY_AVATAR)
    );
    assert_eq!(
        oscquery_reply_bytes(b"GET /avatar\xff HTTP/1.1\r\n\r\n", 9001),
        response("404 Not Found", OSCQUERY_NOT_FOUND)
    );
    assert_eq!(
        oscquery_reply_bytes(b"GET / HTTP/1.1\r\nX: \xfe\xff\r\n\r\n", 9001),
        response("200 OK", OSCQUERY_ROOT)
    );
}

#[test]
fn header_end_is_detected() {
    assert!(header_complete(b"GET / HTTP/1.1\r\n\r\n"));
    assert!(header_complete(b"\r\n\r\nrest"));
    assert!(!header_complete(b"GET / HTTP/1.1\r\n"));
    assert!(!header_complete(b"\r\n\r"));
    assert!(!header_complete(b""));
    assert!(!header_complete(b"\n\r\n\r"));
}

#[test]
fn vrchat_status_follows_the_visible_clients() {
    let mut tracker = VrchatTracker::new();
    assert!(!tracker.any());
    let a = "VRChat-Client-AAAA._oscjson._tcp.local.".to_string();
    let b = "vrchat-client-BBBB._oscjson._tcp.local.".to_string();
    assert_eq!(tracker.handle(DiscoveryEvent::Resolved(a.clone())), Some(true));
    assert_eq!(tracker.handle(DiscoveryEvent::Resolved(a.clone())), Some(true));
    assert_eq!(tracker.handle(DiscoveryEvent::Resolved("Other._oscjson._tcp.local.".to_string())), None);
    assert_eq!(tracker.handle(DiscoveryEvent::Resolved(b.clone())), Some(true));
    assert_eq!(tracker.handle(DiscoveryEvent::Removed(a.clone())), Some(true));
    assert_eq!(tracker.handle(DiscoveryEvent::Removed(a.clone())), Some(true));
    assert_eq!(tracker.handle(DiscoveryEvent::Other), None);
    assert_eq!(tracker.handle(DiscoveryEvent::Removed(b.clone())), Some(false));
    assert_eq!(tracker.handle(DiscoveryEvent::Resolved(b)), Some(true));
    assert_eq!(tracker.handle(DiscoveryEvent::SearchStopped), Some(false));
    assert!(!tracker.any());
}

#[test]
fn status_changes_are_reported_once() {
    let mut current = false;
    assert!(apply_status(&mut current, true));
    assert!(current);
    assert!(!apply_status(&mut current, true));
    assert!(current);
    assert!(apply_status(&mut current, false));
    assert!(!current);
}

#[test]
fn reading_stops_at_end_of_stream_room_or_header() {
    assert!(continue_reading(b"GET / HTTP/1.1\r\n", 4096, 16));
    assert!(!continue_reading(b"GET / HTTP/1.1\r\n", 4096, 0));
    assert!(!continue_reading(b"GET / HTTP/1.1\r\n\r\n", 4096, 18));
    assert!(!continue_reading(b"GET /", 5, 5));
    assert!(continue_reading(b"GET /", 6, 2));
}
