use emrent::peer::pieces::{PieceDownloader, PieceError, BLOCK_SIZE};

fn hex20(s: &str) -> [u8; 20] {
    let mut out = [0u8; 20];
    for i in 0..20 {
        out[i] = u8::from_str_radix(&s[2 * i..2 * i + 2], 16).unwrap();
    }
    out
}

#[test]
fn blocks_walk_the_piece() {
    let d = PieceDownloader::new(0, 40000, [0; 20]);
    let mut offset = 0u32;
    let mut sizes = Vec::new();
    while let Some(size) = d.next_block(offset) {
        sizes.push(size);
        offset += size;
    }
    assert_eq!(sizes, vec![BLOCK_SIZE, BLOCK_SIZE, 40000 - 2 * BLOCK_SIZE]);
    assert_eq!(offset, 40000);
    assert_eq!(d.next_block(40000), None);
}

#[test]
fn blocks_are_copied_into_place() {
    let d = PieceDownloader::new(3, 6, [0; 20]);
    let mut data = d.new_buffer();
    assert_eq!(data, vec![0; 6]);
    assert_eq!(d.store_block(&mut data, 2, 3, &[7, 8, 9]), Ok(5));
    assert_eq!(data, vec![0, 0, 7, 8, 9, 0]);
    assert_eq!(
        d.store_block(&mut data, 0, 2, &[1]),
        Err(PieceError::BlockSizeMismatch { expected: 2, got: 1 })
    );
    assert_eq!(data, vec![0, 0, 7, 8, 9, 0]);
}

#[test]
fn verify_checks_sha1() {
    let good = PieceDownloader::new(4, 3, hex20("a9993e364706816aba3e25717850c26c9cd0d89d"));
    assert_eq!(good.verify(b"abc"), Ok(()));
    assert_eq!(good.verify(b"abd"), Err(PieceError::HashMismatch(4)));
    let data: Vec<u8> = (0..10).collect();
    let other = PieceDownloader::new(5, 10, hex20("494179714a6cd627239dfededf2de9ef994caf03"));
    assert_eq!(other.verify(&data), Ok(()));
    assert_eq!(other.check_hash(&[0; 20]), Err(PieceError::HashMismatch(5)));
}
