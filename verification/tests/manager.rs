use std::collections::HashMap;

use emrent::peer::handshake::Handshake;
use emrent::peer::manager::{count_done_in, DownloadManager, PieceState};
use emrent::peer::messages::Message;
use emrent::peer::session::PeerSession;
use emrent::torrent::metainfo::{Info, Torrent};

fn torrent(pieces: usize, piece_length: u64, length: u64) -> Torrent {
    Torrent {
        announce: None,
        announce_list: None,
        info: Info {
            name: "data.bin".to_string(),
            piece_length,
            pieces: (0..20 * pieces).map(|i| i as u8).collect(),
            private: None,
            length: Some(length),
            files: None,
        },
        created_by: None,
        creation_date: None,
        comment: None,
    }
}

fn seeder() -> PeerSession {
    let mut s = PeerSession::new(&Handshake::new([0; 20], [1; 20]));
    s.receive_bitfield(Message::Bitfield(vec![0x80])).unwrap();
    s
}

#[test]
fn new_manager_has_every_piece_pending() {
    let m = DownloadManager::new(torrent(6, 10, 55), [3; 20], [4; 20], "out".to_string());
    assert_eq!(m.piece_states, vec![PieceState::Pending; 6]);
    assert!(m.piece_rarities.is_empty());
    assert_eq!(m.piece_total(), 6);
}

#[test]
fn select_piece_takes_the_rarest_then_the_lowest_index() {
    let states = vec![
        PieceState::Pending,
        PieceState::Pending,
        PieceState::Done,
        PieceState::Pending,
        PieceState::Pending,
    ];
    let mut rarities = HashMap::new();
    rarities.insert(0u32, 3u32);
    rarities.insert(1, 2);
    rarities.insert(2, 0);
    rarities.insert(3, 2);
    rarities.insert(4, 5);
    assert_eq!(DownloadManager::select_piece(&states, &rarities, &seeder(), 5), Some(1));
    rarities.insert(4, 1);
    assert_eq!(DownloadManager::select_piece(&states, &rarities, &seeder(), 5), Some(4));
    rarities.remove(&3);
    assert_eq!(DownloadManager::select_piece(&states, &rarities, &seeder(), 5), Some(3));
}

#[test]
fn select_piece_needs_a_pending_piece_the_peer_has() {
    let states = vec![PieceState::Done, PieceState::Downloading];
    let rarities = HashMap::new();
    assert_eq!(DownloadManager::select_piece(&states, &rarities, &seeder(), 2), None);
    let mut empty_peer = PeerSession::new(&Handshake::new([0; 20], [1; 20]));
    empty_peer.receive_bitfield(Message::Bitfield(vec![])).unwrap();
    let pending = vec![PieceState::Pending; 3];
    assert_eq!(DownloadManager::select_piece(&pending, &rarities, &empty_peer, 3), None);
}

#[test]
fn record_peer_pieces_counts_each_piece_the_peer_has() {
    let mut m = DownloadManager::new(torrent(4, 10, 40), [3; 20], [4; 20], "out".to_string());
    m.record_peer_pieces(&seeder(), 4);
    m.record_peer_pieces(&seeder(), 2);
    assert_eq!(m.piece_rarities.get(&0), Some(&2));
    assert_eq!(m.piece_rarities.get(&1), Some(&2));
    assert_eq!(m.piece_rarities.get(&3), Some(&1));
    let mut empty_peer = PeerSession::new(&Handshake::new([0; 20], [1; 20]));
    empty_peer.receive_bitfield(Message::Bitfield(vec![0x7f])).unwrap();
    m.record_peer_pieces(&empty_peer, 4);
    assert_eq!(m.piece_rarities.get(&3), Some(&1));
}

#[test]
fn claim_finish_and_release() {
    let mut m = DownloadManager::new(torrent(3, 10, 25), [3; 20], [4; 20], "out".to_string());
    let p = m.claim_piece(&seeder(), 3).unwrap();
    assert_eq!(p, 0);
    assert_eq!(m.piece_states[0], PieceState::Downloading);
    assert_eq!(m.claim_piece(&seeder(), 3), Some(1));
    m.release_piece(1);
    assert_eq!(m.piece_states[1], PieceState::Pending);
    assert_eq!(m.finish_piece(0), 1);
    assert_eq!(m.claim_piece(&seeder(), 3), Some(1));
    assert_eq!(m.claim_piece(&seeder(), 3), Some(2));
    assert_eq!(m.finish_piece(2), 2);
    assert_eq!(count_done_in(&m.piece_states), 2);
    assert_eq!(m.claim_piece(&seeder(), 3), None);
    m.release_piece(1);
    assert_eq!(m.claim_piece(&seeder(), 3), Some(1));
    assert_eq!(m.finish_piece(1), 3);
    assert_eq!(m.piece_states, vec![PieceState::Done; 3]);
}

#[test]
fn piece_lengths_cut_the_last_piece() {
    let m = DownloadManager::new(torrent(3, 10, 25), [3; 20], [4; 20], "out".to_string());
    assert_eq!(m.piece_length_of(0, 3), 10);
    assert_eq!(m.piece_length_of(1, 3), 10);
    assert_eq!(m.piece_length_of(2, 3), 5);
}

#[test]
fn piece_hash_is_twenty_bytes_of_pieces() {
    let m = DownloadManager::new(torrent(3, 10, 25), [3; 20], [4; 20], "out".to_string());
    let h = m.piece_hash(1);
    let expected: Vec<u8> = (20..40).collect();
    assert_eq!(h.to_vec(), expected);
}

#[test]
fn a_single_short_piece_gets_the_file_size() {
    let m = DownloadManager::new(torrent(1, 16384, 100), [3; 20], [4; 20], "out".to_string());
    assert_eq!(m.piece_total(), 1);
    assert_eq!(m.piece_length_of(0, m.piece_total()), 100);
}
