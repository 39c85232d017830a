use imdl_core::bytes::parse_byte_count;
use imdl_core::hasher::Hasher;
use imdl_core::piece_length::{auto_piece_length, check_piece_length, count_pieces, is_power_of_two};
use imdl_core::error::{Error, Lint};

const L: usize = 16384;

fn hash_files(files: &[Vec<u8>], piece_length: usize) -> Vec<Vec<u8>> {
    let mut h = Hasher::new(piece_length);
    for f in files {
        h.update(f);
    }
    h.finish()
}

fn sha1(data: &[u8]) -> Vec<u8> {
    let mut h = Hasher::new(data.len().max(1));
    h.update(data);
    h.finish().pop().unwrap()
}

fn hex(b: &[u8]) -> String {
    b.iter().map(|x| format!("{:02x}", x)).collect()
}

#[test]
fn exactly_one_piece() {
    let pieces = hash_files(&[vec![7u8; L]], L);
    assert_eq!(pieces.len(), 1);
    assert_eq!(pieces[0], sha1(&vec![7u8; L]));
}

#[test]
fn one_short_piece() {
    let pieces = hash_files(&[vec![7u8; L - 1]], L);
    assert_eq!(pieces.len(), 1);
    assert_eq!(pieces[0].len(), 20);
}

#[test]
fn piece_crosses_file_boundary() {
    let a = vec![1u8; L + 1];
    let b = vec![2u8; L - 1];
    let pieces = hash_files(&[a.clone(), b.clone()], L);
    assert_eq!(pieces.len(), 2);
    let mut second = vec![1u8];
    second.extend_from_slice(&b);
    assert_eq!(pieces[1], sha1(&second));
    assert_eq!(pieces[0], sha1(&a[..L]));
}

#[test]
fn empty_content_has_no_pieces() {
    let pieces = hash_files(&[], L);
    assert!(pieces.is_empty());
    let pieces = hash_files(&[Vec::new(), Vec::new()], L);
    assert!(pieces.is_empty());
}

#[test]
fn single_tiny_file() {
    let pieces = hash_files(&[b"hello".to_vec()], L);
    assert_eq!(pieces.len(), 1);
    assert_eq!(hex(&pieces[0]), "aaf4c61ddcc5e8a2dabede0f3b482cd9aea9434d");
}

#[test]
fn two_files_two_pieces() {
    let pieces = hash_files(&[vec![0u8; L], vec![0xffu8; L]], L);
    assert_eq!(pieces.len(), 2);
    assert_eq!(pieces[0], sha1(&vec![0u8; L]));
    assert_eq!(pieces[1], sha1(&vec![0xffu8; L]));
}

#[test]
fn content_in_walk_order() {
    // `a/y` holds "2" and is walked before `b/x`, which holds "1".
    let pieces = hash_files(&[b"2".to_vec(), b"1".to_vec()], L);
    assert_eq!(pieces.len(), 1);
    assert_eq!(pieces[0], sha1(b"21"));
    assert_ne!(pieces[0], sha1(b"12"));
}

#[test]
fn slices_do_not_change_pieces() {
    let data: Vec<u8> = (0..100u32).map(|i| i as u8).collect();
    let whole = hash_files(&[data.clone()], 7);
    let split = hash_files(&[data[..3].to_vec(), data[3..50].to_vec(), data[50..].to_vec()], 7);
    assert_eq!(whole, split);
    assert_eq!(whole.len(), 15);
    assert_eq!(count_pieces(100, 7), 15);
}

#[test]
fn piece_count_is_ceiling() {
    assert_eq!(count_pieces(0, 16384), 0);
    assert_eq!(count_pieces(1, 16384), 1);
    assert_eq!(count_pieces(16384, 16384), 1);
    assert_eq!(count_pieces(16385, 16384), 2);
}

#[test]
fn piece_length_lints() {
    assert_eq!(check_piece_length(0, &vec![]), Err(Error::PieceLengthZero));
    assert_eq!(
        check_piece_length(0, &vec![Lint::SmallPieceLength, Lint::UnevenPieceLength]),
        Err(Error::PieceLengthZero)
    );
    assert_eq!(
        check_piece_length(20000, &vec![]),
        Err(Error::PieceLengthUneven { bytes: 20000 })
    );
    assert_eq!(check_piece_length(20000, &vec![Lint::UnevenPieceLength]), Ok(()));
    assert_eq!(check_piece_length(8192, &vec![]), Err(Error::PieceLengthSmall));
    assert_eq!(check_piece_length(8192, &vec![Lint::SmallPieceLength]), Ok(()));
    assert_eq!(check_piece_length(16384, &vec![]), Ok(()));
    assert_eq!(
        check_piece_length(1 << 33, &vec![]),
        Err(Error::PieceLengthTooLarge { bytes: 1 << 33 })
    );
}

#[test]
fn lint_of_error() {
    assert_eq!(Error::PieceLengthSmall.lint(), Some(Lint::SmallPieceLength));
    assert_eq!(
        Error::PieceLengthUneven { bytes: 3 }.lint(),
        Some(Lint::UnevenPieceLength)
    );
    assert_eq!(Error::PieceLengthZero.lint(), None);
    assert_eq!(Lint::SmallPieceLength.name(), "small-piece-length");
    assert_eq!(Lint::UnevenPieceLength.name(), "uneven-piece-length");
}

#[test]
fn powers_of_two() {
    assert!(is_power_of_two(1));
    assert!(is_power_of_two(16384));
    assert!(!is_power_of_two(0));
    assert!(!is_power_of_two(12));
}

#[test]
fn automatic_piece_length() {
    assert_eq!(auto_piece_length(0), 16384);
    assert_eq!(auto_piece_length(2048 * 16384), 16384);
    assert_eq!(auto_piece_length(2048 * 16384 + 1), 32768);
    assert_eq!(auto_piece_length(u64::MAX), 16 * 1024 * 1024);
}

#[test]
fn byte_counts() {
    assert_eq!(parse_byte_count("512"), Ok(512));
    assert_eq!(parse_byte_count("512B"), Ok(512));
    assert_eq!(parse_byte_count("16KiB"), Ok(16384));
    assert_eq!(parse_byte_count("1MiB"), Ok(1 << 20));
    assert_eq!(parse_byte_count("2GiB"), Ok(2 << 30));
    assert_eq!(parse_byte_count("1TiB"), Ok(1 << 40));
    assert_eq!(
        parse_byte_count("KiB"),
        Err(Error::ByteParse { text: "KiB".to_string() })
    );
    assert_eq!(
        parse_byte_count("16kb"),
        Err(Error::ByteSuffix { text: "16kb".to_string(), suffix: "kb".to_string() })
    );
    assert_eq!(
        parse_byte_count("99999999999999999999"),
        Err(Error::ByteParse { text: "99999999999999999999".to_string() })
    );
    assert_eq!(
        parse_byte_count("20000000TiB"),
        Err(Error::ByteParse { text: "20000000TiB".to_string() })
    );
}

#[test]
fn lint_names_parse() {
    assert_eq!(Lint::from_name("small-piece-length"), Ok(Lint::SmallPieceLength));
    assert_eq!(Lint::from_name("uneven-piece-length"), Ok(Lint::UnevenPieceLength));
    assert_eq!(
        Lint::from_name("bogus"),
        Err(Error::LintUnknown { text: "bogus".to_string() })
    );
}
