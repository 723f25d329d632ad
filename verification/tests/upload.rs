use emrent::peer::handshake::Handshake;
use emrent::peer::session::PeerSession;
use emrent::peer::manager::PieceState;
use emrent::peer::messages::Message;
use emrent::peer::upload::{block_offset, build_bitfield, has_completed, respond_to, UploadAction};

#[test]
fn bitfield_marks_done_pieces() {
    let states = vec![
        PieceState::Done,
        PieceState::Pending,
        PieceState::Done,
        PieceState::Downloading,
        PieceState::Pending,
        PieceState::Pending,
        PieceState::Pending,
        PieceState::Pending,
        PieceState::Done,
    ];
    assert_eq!(build_bitfield(&states), vec![0b1010_0000, 0b1000_0000]);
    assert_eq!(build_bitfield(&[]), Vec::<u8>::new());
}

#[test]
fn only_done_pieces_are_served() {
    let states = vec![PieceState::Done, PieceState::Downloading];
    assert!(has_completed(&states, 0));
    assert!(!has_completed(&states, 1));
    assert!(!has_completed(&states, 2));
}

#[test]
fn upload_loop_answers() {
    assert_eq!(respond_to(&Message::Interested), UploadAction::SendUnchoke);
    assert_eq!(respond_to(&Message::NotInterested), UploadAction::SendChoke);
    assert_eq!(
        respond_to(&Message::Request { index: 1, begin: 2, length: 3 }),
        UploadAction::Serve { index: 1, begin: 2, length: 3 }
    );
    assert_eq!(respond_to(&Message::KeepAlive), UploadAction::Ignore);
    assert_eq!(respond_to(&Message::Have(3)), UploadAction::Ignore);
}

#[test]
fn block_offset_in_data() {
    assert_eq!(block_offset(262144, 3, 16384), 3 * 262144 + 16384);
}

#[test]
fn downloader_reads_our_bitfield() {
    let mut states = vec![PieceState::Pending; 40];
    states[0] = PieceState::Done;
    states[16] = PieceState::Done;
    states[33] = PieceState::Done;
    let bits = build_bitfield(&states);
    let mut downloader = PeerSession::new(&Handshake::new([0; 20], [0; 20]));
    downloader.receive_bitfield(Message::Bitfield(bits)).unwrap();
    assert!(downloader.has_piece(0));
    assert!(downloader.has_piece(16));
    assert!(!downloader.has_piece(32));
    assert!(!downloader.has_piece(33));
    assert!(downloader.has_piece(2));
}
