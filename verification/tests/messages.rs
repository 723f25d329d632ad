use emrent::peer::messages::{Message, MessageError};

#[test]
fn keep_alive_is_four_zero_bytes() {
    assert_eq!(Message::KeepAlive.to_bytes(), vec![0, 0, 0, 0]);
}

#[test]
fn fixed_messages_encode_their_ids() {
    assert_eq!(Message::Choke.to_bytes(), vec![0, 0, 0, 1, 0]);
    assert_eq!(Message::Unchoke.to_bytes(), vec![0, 0, 0, 1, 1]);
    assert_eq!(Message::Interested.to_bytes(), vec![0, 0, 0, 1, 2]);
    assert_eq!(Message::NotInterested.to_bytes(), vec![0, 0, 0, 1, 3]);
}

#[test]
fn have_encodes_index_big_endian() {
    assert_eq!(Message::Have(0x01020304).to_bytes(), vec![0, 0, 0, 5, 4, 1, 2, 3, 4]);
}

#[test]
fn bitfield_encodes_length_and_bits() {
    assert_eq!(
        Message::Bitfield(vec![0xff, 0x80]).to_bytes(),
        vec![0, 0, 0, 3, 5, 0xff, 0x80]
    );
}

#[test]
fn request_encodes_three_fields() {
    let m = Message::Request { index: 1, begin: 0x4000, length: 0x4000 };
    assert_eq!(
        m.to_bytes(),
        vec![0, 0, 0, 13, 6, 0, 0, 0, 1, 0, 0, 0x40, 0, 0, 0, 0x40, 0]
    );
}

#[test]
fn piece_encodes_header_and_block() {
    let m = Message::Piece { index: 2, begin: 3, block: vec![9, 8, 7] };
    assert_eq!(
        m.to_bytes(),
        vec![0, 0, 0, 12, 7, 0, 0, 0, 2, 0, 0, 0, 3, 9, 8, 7]
    );
}

fn all_messages() -> Vec<Message> {
    vec![
        Message::KeepAlive,
        Message::Choke,
        Message::Unchoke,
        Message::Interested,
        Message::NotInterested,
        Message::Have(77),
        Message::Bitfield(vec![]),
        Message::Bitfield(vec![1, 2, 3]),
        Message::Request { index: 5, begin: 16384, length: 16384 },
        Message::Piece { index: 7, begin: 0, block: vec![] },
        Message::Piece { index: 7, begin: 4, block: vec![1, 2, 3, 4, 5] },
    ]
}

#[test]
fn read_after_write_gives_the_message_back() {
    for m in all_messages() {
        let mut bytes = m.to_bytes();
        let n = bytes.len();
        bytes.extend_from_slice(&[0xaa, 0xbb]);
        assert_eq!(Message::read_from_bytes(&bytes), Ok((m.clone(), n)));
    }
}

#[test]
fn short_frames_are_eof() {
    assert_eq!(Message::read_from_bytes(&[0, 0, 0]), Err(MessageError::UnexpectedEof));
    assert_eq!(Message::read_from_bytes(&[0, 0, 0, 5, 4, 0]), Err(MessageError::UnexpectedEof));
    assert_eq!(Message::read_from_bytes(&[0, 0, 0, 1]), Err(MessageError::UnexpectedEof));
}

#[test]
fn have_with_wrong_payload_is_refused() {
    assert_eq!(
        Message::read_from_bytes(&[0, 0, 0, 3, 4, 0, 1]),
        Err(MessageError::InvalidHaveLength)
    );
}

#[test]
fn request_with_wrong_payload_is_refused() {
    assert_eq!(
        Message::decode_body(6, vec![0; 11]),
        Err(MessageError::InvalidRequestLength)
    );
}

#[test]
fn piece_with_short_payload_is_refused() {
    assert_eq!(Message::decode_body(7, vec![0; 7]), Err(MessageError::InvalidPieceLength));
}

#[test]
fn unknown_id_is_refused() {
    assert_eq!(Message::decode_body(9, vec![]), Err(MessageError::UnknownId(9)));
    assert_eq!(Message::read_from_bytes(&[0, 0, 0, 1, 20]), Err(MessageError::UnknownId(20)));
}

#[test]
fn choke_with_extra_payload_is_still_choke() {
    assert_eq!(Message::read_from_bytes(&[0, 0, 0, 3, 0, 1, 2]), Ok((Message::Choke, 7)));
}

#[test]
fn frame_body_length_reads_prefix() {
    assert_eq!(Message::frame_body_length(&[0, 0, 1, 2, 99]), 258);
}
