use emrent::peer::handshake::{Handshake, HandshakeError};

fn sample() -> Handshake {
    let mut info_hash = [0u8; 20];
    let mut peer_id = [0u8; 20];
    for i in 0..20 {
        info_hash[i] = i as u8;
        peer_id[i] = 100 + i as u8;
    }
    Handshake::new(info_hash, peer_id)
}

#[test]
fn handshake_layout() {
    let h = sample();
    let bytes = h.to_bytes();
    assert_eq!(bytes.len(), 68);
    assert_eq!(bytes[0], 19);
    assert_eq!(&bytes[1..20], "Bittorrent protocol".as_bytes());
    assert_eq!(&bytes[20..28], &[0u8; 8]);
    assert_eq!(&bytes[28..48], &h.info_hash);
    assert_eq!(&bytes[48..68], &h.peer_id);
}

#[test]
fn handshake_roundtrip() {
    let h = sample();
    let back = Handshake::from_bytes(&h.to_bytes()).unwrap();
    assert_eq!(back.info_hash, h.info_hash);
    assert_eq!(back.peer_id, h.peer_id);
}

#[test]
fn reserved_bytes_are_ignored() {
    let h = sample();
    let mut bytes = h.to_bytes();
    bytes[20] = 0xff;
    let back = Handshake::from_bytes(&bytes).unwrap();
    assert_eq!(back.peer_id, h.peer_id);
}

#[test]
fn wrong_length_is_refused() {
    assert_eq!(Handshake::from_bytes(&[19; 10]).unwrap_err(), HandshakeError::InvalidLength(10));
}

#[test]
fn wrong_protocol_length_is_refused() {
    let mut bytes = sample().to_bytes();
    bytes[0] = 18;
    assert_eq!(
        Handshake::from_bytes(&bytes).unwrap_err(),
        HandshakeError::InvalidProtocolLength(18)
    );
}

#[test]
fn non_utf8_protocol_is_refused() {
    let mut bytes = sample().to_bytes();
    bytes[5] = 0xff;
    assert_eq!(Handshake::from_bytes(&bytes).unwrap_err(), HandshakeError::InvalidUtf8);
}

#[test]
fn other_protocol_is_refused() {
    let mut bytes = sample().to_bytes();
    bytes[1] = b'b';
    assert_eq!(Handshake::from_bytes(&bytes).unwrap_err(), HandshakeError::InvalidProtocol);
}

#[test]
fn standard_protocol_spelling_is_refused() {
    let mut bytes = sample().to_bytes();
    bytes[1..20].copy_from_slice(b"BitTorrent protocol");
    assert_eq!(Handshake::from_bytes(&bytes).unwrap_err(), HandshakeError::InvalidProtocol);
}

#[test]
fn peer_handshake_must_name_our_torrent() {
    let h = sample();
    let bytes = h.to_bytes();
    let ok = Handshake::verify_peer_handshake(&bytes, &h.info_hash).unwrap();
    assert_eq!(ok.peer_id, h.peer_id);
    let other = [7u8; 20];
    assert_eq!(
        Handshake::verify_peer_handshake(&bytes, &other).unwrap_err(),
        HandshakeError::InfoHashMismatch
    );
    assert_eq!(
        Handshake::verify_peer_handshake(&bytes[..67], &h.info_hash).unwrap_err(),
        HandshakeError::InvalidLength(67)
    );
}
