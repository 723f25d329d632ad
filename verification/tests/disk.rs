use emrent::peer::disk::{plan_multi_file_writes, DiskWriter, FileWrite};
use emrent::torrent::metainfo::{File, Info};

fn files(lengths: &[u64]) -> Vec<File> {
    lengths.iter().map(|&length| File { length, path: vec!["f".to_string()] }).collect()
}

#[test]
fn piece_inside_one_file() {
    let plan = plan_multi_file_writes(2, 3, &files(&[10, 10]));
    assert_eq!(plan, vec![FileWrite { file_index: 0, file_offset: 2, data_start: 0, data_len: 3 }]);
}

#[test]
fn piece_across_files_with_an_empty_one() {
    let plan = plan_multi_file_writes(8, 10, &files(&[10, 4, 0, 20]));
    assert_eq!(
        plan,
        vec![
            FileWrite { file_index: 0, file_offset: 8, data_start: 0, data_len: 2 },
            FileWrite { file_index: 1, file_offset: 0, data_start: 2, data_len: 4 },
            FileWrite { file_index: 2, file_offset: 0, data_start: 6, data_len: 0 },
            FileWrite { file_index: 3, file_offset: 0, data_start: 6, data_len: 4 },
        ]
    );
}

#[test]
fn piece_past_the_end_writes_only_what_fits() {
    let plan = plan_multi_file_writes(12, 10, &files(&[10, 5]));
    assert_eq!(plan, vec![FileWrite { file_index: 1, file_offset: 2, data_start: 0, data_len: 3 }]);
    assert!(plan_multi_file_writes(40, 5, &files(&[10, 5])).is_empty());
}

#[test]
fn piece_offset_is_index_times_length() {
    let info = Info {
        name: "x".to_string(),
        piece_length: 16384,
        pieces: vec![],
        private: None,
        length: Some(100000),
        files: None,
    };
    let w = DiskWriter::new("out".to_string(), info);
    assert_eq!(w.piece_offset(3), 49152);
}
