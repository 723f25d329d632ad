use emrent::commands::{
    decode_info_hash, ipv4_to_string, AnnounceResult, ConnectionResult, HexError, TorrentInfo,
};
use emrent::greet;
use emrent::torrent::metainfo::{Info, Torrent};
use emrent::tracker::response::{AnnounceResponse, Peer};

#[test]
fn greeting() {
    assert_eq!(greet("Ana"), "Hello, Ana! You've been greeted from Rust!");
}

#[test]
fn info_hash_hex_roundtrip() {
    let hash: [u8; 20] = core::array::from_fn(|i| (i * 13) as u8);
    let t = Torrent {
        announce: Some("http://t/a".to_string()),
        announce_list: None,
        info: Info {
            name: "movie".to_string(),
            piece_length: 16,
            pieces: vec![0; 60],
            private: None,
            length: Some(40),
            files: None,
        },
        created_by: Some("me".to_string()),
        creation_date: Some(5),
        comment: None,
    };
    let info = TorrentInfo::from_torrent(t, &hash);
    assert_eq!(info.name, "movie");
    assert_eq!(info.total_size, 40);
    assert_eq!(info.piece_count, 3);
    assert!(!info.is_multi_file);
    assert_eq!(info.announce.as_deref(), Some("http://t/a"));
    assert_eq!(info.created_by.as_deref(), Some("me"));
    assert_eq!(info.comment, None);
    let expected: String = hash.iter().map(|b| format!("{:02x}", b)).collect();
    assert_eq!(info.info_hash, expected);
    assert_eq!(decode_info_hash(&info.info_hash), Ok(hash));
}

#[test]
fn hex_decoding_accepts_both_cases() {
    let upper = "0123456789ABCDEFabcdef0123456789abcdefAB";
    let decoded = decode_info_hash(upper).unwrap();
    assert_eq!(decoded[0], 0x01);
    assert_eq!(decoded[5], 0xab);
    assert_eq!(decoded[7], 0xef);
    assert_eq!(decoded[8], 0xab);
    assert_eq!(decoded[19], 0xab);
}

#[test]
fn hex_decoding_errors() {
    assert_eq!(decode_info_hash("abc"), Err(HexError::OddLength));
    assert_eq!(decode_info_hash("abcd"), Err(HexError::InvalidStringLength));
    let bad = format!("{}zz{}", "0".repeat(6), "0".repeat(32));
    assert_eq!(
        decode_info_hash(&bad),
        Err(HexError::InvalidHexCharacter { c: 'z', index: 6 })
    );
}

#[test]
fn addresses_in_dotted_decimal() {
    assert_eq!(ipv4_to_string(&[192, 168, 0, 10]), "192.168.0.10");
    assert_eq!(ipv4_to_string(&[0, 0, 0, 0]), "0.0.0.0");
    assert_eq!(ipv4_to_string(&[255, 255, 255, 255]), "255.255.255.255");
}

#[test]
fn announce_result_lists_peers_in_order() {
    let resp = AnnounceResponse {
        interval: 900,
        peers: vec![Peer { ip: [1, 2, 3, 4], port: 5 }, Peer { ip: [9, 9, 9, 9], port: 6881 }],
    };
    let r = AnnounceResult::from_response(&resp);
    assert_eq!(r.interval, 900);
    assert_eq!(r.peers.len(), 2);
    assert_eq!(r.peers[0].ip, "1.2.3.4");
    assert_eq!(r.peers[0].port, 5);
    assert_eq!(r.peers[1].ip, "9.9.9.9");
    assert_eq!(r.peers[1].port, 6881);
}

#[test]
fn connection_result_shows_peer_id_in_hex() {
    let mut id = [0u8; 20];
    id[0] = 0x2d;
    id[19] = 0xff;
    let c = ConnectionResult::new(&id, "10.0.0.1".to_string(), 51413);
    assert_eq!(c.peer_id, format!("2d{}ff", "00".repeat(18)));
    assert_eq!(c.ip, "10.0.0.1");
    assert_eq!(c.port, 51413);
}
