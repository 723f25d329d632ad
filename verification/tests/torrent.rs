use emrent::torrent::bencode::{dict_find, Bencode};
use emrent::torrent::info_hash::{compute_info_hash, find_info, InfoHashError};
use emrent::torrent::metainfo::{File, Info, Torrent};
use emrent::torrent::nesting::{nesting_within, MAX_NESTING};
use emrent::torrent::peer_id::{generate_peer_id, peer_id_with_suffix};

fn hex20(s: &str) -> [u8; 20] {
    let mut out = [0u8; 20];
    for i in 0..20 {
        out[i] = u8::from_str_radix(&s[2 * i..2 * i + 2], 16).unwrap();
    }
    out
}

#[test]
fn info_hash_is_sha1_of_info_dictionary() {
    let bytes = b"d8:announce3:url4:infod4:name3:foo6:lengthi5eee";
    assert_eq!(
        compute_info_hash(bytes),
        Ok(hex20("3d894ea380484ec8825768372dc9f5457c041cfa"))
    );
}

#[test]
fn info_hash_reencodes_with_sorted_keys() {
    let sorted = compute_info_hash(b"d4:infod6:lengthi5e4:name3:fooee").unwrap();
    let unsorted = compute_info_hash(b"d4:infod4:name3:foo6:lengthi5eee").unwrap();
    assert_eq!(sorted, unsorted);
    assert_eq!(sorted, hex20("3d894ea380484ec8825768372dc9f5457c041cfa"));
}

#[test]
fn info_hash_errors() {
    assert!(matches!(compute_info_hash(b"not bencode"), Err(InfoHashError::Decode(_))));
    assert_eq!(compute_info_hash(b"i42e"), Err(InfoHashError::NotADictionary));
    assert_eq!(compute_info_hash(b"d4:name3:fooe"), Err(InfoHashError::MissingInfo));
}

#[test]
fn find_info_in_decoded_values() {
    let value = Bencode::Dict(vec![
        (b"info".to_vec(), Bencode::Int(1)),
        (b"name".to_vec(), Bencode::Int(2)),
        (b"info".to_vec(), Bencode::Int(3)),
    ]);
    assert!(matches!(find_info(&value), Ok(Bencode::Int(3))));
    assert_eq!(find_info(&Bencode::List(vec![])).unwrap_err(), InfoHashError::NotADictionary);
    assert_eq!(
        find_info(&Bencode::Dict(vec![(b"inf".to_vec(), Bencode::Int(1))])).unwrap_err(),
        InfoHashError::MissingInfo
    );
}

#[test]
fn peer_id_starts_with_client_tag() {
    let id = generate_peer_id();
    assert_eq!(&id[..8], b"-EM0100-");
    let fixed = peer_id_with_suffix([7; 12]);
    assert_eq!(&fixed[..8], b"-EM0100-");
    assert_eq!(&fixed[8..], &[7; 12]);
}

fn torrent(length: Option<u64>, files: Option<Vec<File>>) -> Torrent {
    Torrent {
        announce: Some("http://t".to_string()),
        announce_list: None,
        info: Info {
            name: "n".to_string(),
            piece_length: 4,
            pieces: vec![0; 40],
            private: None,
            length,
            files,
        },
        created_by: None,
        creation_date: None,
        comment: None,
    }
}

#[test]
fn sizes_and_counts() {
    let single = torrent(Some(77), None);
    assert!(!single.is_multi_file());
    assert_eq!(single.total_size(), 77);
    assert_eq!(single.piece_count(), 2);
    assert_eq!(torrent(None, None).total_size(), 0);
    let files = vec![
        File { length: 3, path: vec!["a".to_string()] },
        File { length: 4, path: vec!["b".to_string(), "c".to_string()] },
    ];
    let multi = torrent(Some(1000), Some(files));
    assert!(multi.is_multi_file());
    assert!(multi.total_size_fits());
    assert_eq!(multi.total_size(), 7);
}

#[test]
fn oversized_file_lists_do_not_fit() {
    let files = vec![
        File { length: u64::MAX, path: vec![] },
        File { length: 1, path: vec![] },
    ];
    assert!(!torrent(None, Some(files)).total_size_fits());
}

#[test]
fn info_value_may_be_any_bencode() {
    assert_eq!(
        compute_info_hash(b"d4:infol4:spami-3eee"),
        Ok(hex20("096ad690debce9e26092c7f7e4d4ecf4c696b1d0"))
    );
}

fn nested_lists(levels: usize) -> Vec<u8> {
    let mut bytes = vec![b'l'; levels];
    bytes.extend(std::iter::repeat(b'e').take(levels));
    bytes
}

#[test]
fn nesting_counts_lists_and_dictionaries() {
    assert!(nesting_within(b"i42e", 0));
    assert!(nesting_within(b"4:spam", 0));
    assert!(nesting_within(b"d4:infod1:ai1eee", 2));
    assert!(!nesting_within(b"d4:infod1:ai1eee", 1));
    assert!(nesting_within(b"li1eli2eee", 2));
    assert!(!nesting_within(b"lli2eee", 1));
}

#[test]
fn nesting_skips_strings_and_integers() {
    assert!(nesting_within(b"l5:llllle", 1));
    assert!(nesting_within(b"li10ee", 1));
    assert!(nesting_within(b"d3:abci1e1:dlee", 2));
    assert!(!nesting_within(b"d3:abci1e1:dlee", 1));
}

#[test]
fn nesting_stops_after_the_first_value() {
    let mut bytes = b"de".to_vec();
    bytes.extend(vec![b'l'; 300]);
    assert!(nesting_within(&bytes, 1));
    assert!(nesting_within(b"i1ellll", 0));
}

#[test]
fn nesting_counts_unclosed_levels() {
    assert!(!nesting_within(&vec![b'l'; 300], 128));
    assert!(nesting_within(b"lll", 3));
    assert!(!nesting_within(b"lll", 2));
}

#[test]
fn deep_torrent_files_are_refused() {
    assert!(nesting_within(&nested_lists(128), MAX_NESTING));
    assert_eq!(compute_info_hash(&nested_lists(128)), Err(InfoHashError::NotADictionary));
    assert_eq!(compute_info_hash(&nested_lists(129)), Err(InfoHashError::TooDeeplyNested));
    assert_eq!(compute_info_hash(&vec![b'l'; 1_000_000]), Err(InfoHashError::TooDeeplyNested));
    let mut deep_info = b"d4:info".to_vec();
    deep_info.extend(nested_lists(200));
    deep_info.push(b'e');
    assert_eq!(compute_info_hash(&deep_info), Err(InfoHashError::TooDeeplyNested));
}

#[test]
fn dict_find_gives_the_last_entry_with_the_key() {
    let entries = vec![
        (b"a".to_vec(), Bencode::Int(1)),
        (b"b".to_vec(), Bencode::Int(2)),
        (b"a".to_vec(), Bencode::Int(3)),
    ];
    assert_eq!(dict_find(&entries, b"a"), Some(2));
    assert_eq!(dict_find(&entries, b"b"), Some(1));
    assert_eq!(dict_find(&entries, b"c"), None);
}
