use emrent::peer::handshake::Handshake;
use emrent::peer::messages::Message;
use emrent::peer::session::{BlockWait, PeerSession, SessionError, UnchokeWait};

fn session() -> PeerSession {
    PeerSession::new(&Handshake::new([1; 20], [2; 20]))
}

#[test]
fn new_session_is_choked_and_empty() {
    let s = session();
    assert_eq!(s.peer_id, [2; 20]);
    assert!(s.bitfield.is_empty());
    assert!(s.choked);
    assert!(!s.interested);
}

#[test]
fn first_message_must_be_bitfield() {
    let mut s = session();
    assert_eq!(s.receive_bitfield(Message::Unchoke), Err(SessionError::ExpectedBitfield));
    assert_eq!(s.receive_bitfield(Message::Bitfield(vec![0x80, 0])), Ok(()));
    assert_eq!(s.bitfield, vec![0x80, 0]);
}

#[test]
fn has_piece_tests_high_bit_of_byte() {
    let mut s = session();
    s.receive_bitfield(Message::Bitfield(vec![0x80, 0x00, 0x80, 0x00, 0x7f])).unwrap();
    assert!(s.has_piece(0));
    assert!(s.has_piece(1));
    assert!(s.has_piece(7));
    assert!(s.has_piece(16));
    assert!(!s.has_piece(32));
    assert!(!s.has_piece(48));
}

#[test]
fn update_bitfield_sets_bit_of_piece() {
    let mut s = session();
    s.receive_bitfield(Message::Bitfield(vec![0, 0])).unwrap();
    s.update_bitfield(0);
    assert_eq!(s.bitfield, vec![0x80, 0]);
    s.update_bitfield(9);
    assert_eq!(s.bitfield, vec![0x80, 0x40]);
    s.update_bitfield(100);
    assert_eq!(s.bitfield, vec![0x80, 0x40]);
}

#[test]
fn have_then_has_piece_for_multiple_of_sixteen() {
    let mut s = session();
    s.receive_bitfield(Message::Bitfield(vec![0, 0, 0])).unwrap();
    assert!(!s.has_piece(16));
    assert_eq!(s.on_message_while_choked(Message::Have(16)), UnchokeWait::KeepWaiting);
    assert!(s.has_piece(16));
}

#[test]
fn have_of_piece_one_is_not_seen_by_has_piece() {
    let mut s = session();
    s.receive_bitfield(Message::Bitfield(vec![0])).unwrap();
    s.update_bitfield(1);
    assert_eq!(s.bitfield, vec![0x40]);
    assert!(!s.has_piece(1));
}

#[test]
fn unchoke_ends_the_wait() {
    let mut s = session();
    assert_eq!(s.on_message_while_choked(Message::KeepAlive), UnchokeWait::KeepWaiting);
    assert!(s.choked);
    assert_eq!(s.on_message_while_choked(Message::Unchoke), UnchokeWait::Unchoked);
    assert!(!s.choked);
}

#[test]
fn interested_is_recorded() {
    let mut s = session();
    s.set_interested();
    assert!(s.interested);
}

#[test]
fn requests_need_an_unchoke() {
    let mut s = session();
    assert_eq!(s.check_can_request(), Err(SessionError::Choked));
    s.on_message_while_choked(Message::Unchoke);
    assert_eq!(s.check_can_request(), Ok(()));
}

#[test]
fn waiting_for_a_block() {
    let mut s = session();
    s.on_message_while_choked(Message::Unchoke);
    let other = Message::Piece { index: 1, begin: 16384, block: vec![1] };
    assert_eq!(s.on_message_while_requesting(1, 0, other), BlockWait::KeepWaiting);
    let wanted = Message::Piece { index: 1, begin: 0, block: vec![4, 5] };
    assert_eq!(s.on_message_while_requesting(1, 0, wanted), BlockWait::Received(vec![4, 5]));
    assert!(!s.choked);
    assert_eq!(s.on_message_while_requesting(1, 0, Message::Choke), BlockWait::Choked);
    assert!(s.choked);
}
