use emrent::tracker::announce::{build_announce_url, url_encode_bytes};
use emrent::tracker::response::{AnnounceResponse, Peer, RawAnnounceResponse, ResponseError};
use emrent::tracker::{AnnounceEvent, AnnounceRequest};

#[test]
fn url_encoding_is_lowercase_percent_hex() {
    assert_eq!(url_encode_bytes(&[0x00, 0xab, 0x7f, 0x10]), "%00%ab%7f%10");
    assert_eq!(url_encode_bytes(&[]), "");
}

#[test]
fn new_request_defaults() {
    let r = AnnounceRequest::new([1; 20], [2; 20], 1234);
    assert_eq!(r.port, 6881);
    assert_eq!(r.uploaded, 0);
    assert_eq!(r.downloaded, 0);
    assert_eq!(r.left, 1234);
    assert!(r.compact);
    assert_eq!(r.event, AnnounceEvent::Started);
}

#[test]
fn event_names() {
    assert_eq!(AnnounceEvent::Started.to_string(), "started");
    assert_eq!(AnnounceEvent::Stopped.to_string(), "stopped");
    assert_eq!(AnnounceEvent::Completed.to_string(), "completed");
    assert_eq!(AnnounceEvent::Empty.to_string(), "empty");
}

#[test]
fn announce_url_lists_every_field() {
    let mut r = AnnounceRequest::new([0xab; 20], [0x2d; 20], 987654321);
    let hash = "%ab".repeat(20);
    let id = "%2d".repeat(20);
    assert_eq!(
        build_announce_url("http://tracker.example/announce", &r),
        format!(
            "http://tracker.example/announce?info_hash={}&peer_id={}&port=6881&uploaded=0&downloaded=0&left=987654321&compact=1&event=started",
            hash, id
        )
    );
    r.compact = false;
    r.uploaded = 10;
    r.downloaded = u64::MAX;
    r.event = AnnounceEvent::Completed;
    r.port = 0;
    assert_eq!(
        build_announce_url("u", &r),
        format!(
            "u?info_hash={}&peer_id={}&port=0&uploaded=10&downloaded=18446744073709551615&left=987654321&compact=0&event=completed",
            hash, id
        )
    );
}

#[test]
fn compact_peers_are_six_bytes_each() {
    let raw = RawAnnounceResponse {
        interval: 1800,
        peers: vec![192, 168, 1, 2, 0x1a, 0xe1, 10, 0, 0, 1, 0, 80],
    };
    let resp = AnnounceResponse::from_raw(raw).unwrap();
    assert_eq!(resp.interval, 1800);
    assert_eq!(
        resp.peers,
        vec![Peer { ip: [192, 168, 1, 2], port: 6881 }, Peer { ip: [10, 0, 0, 1], port: 80 }]
    );
}

#[test]
fn ragged_peer_list_is_refused() {
    let raw = RawAnnounceResponse { interval: 1, peers: vec![1, 2, 3, 4, 5, 6, 7] };
    assert_eq!(
        AnnounceResponse::from_raw(raw).unwrap_err(),
        ResponseError::InvalidPeersLength(7)
    );
    let empty = AnnounceResponse::from_raw(RawAnnounceResponse { interval: 5, peers: vec![] }).unwrap();
    assert!(empty.peers.is_empty());
}
