use imdl_core::bencode::DecodeErrorKind;
use imdl_core::create::{check_announce, check_length, check_root};
use imdl_core::env::{stream_style, Style};
use imdl_core::error::Error;
use imdl_core::metainfo::Metainfo;
use imdl_core::report::error_report;
use imdl_core::verify::{FileError, PieceMismatch, Status};

fn text(b: &[u8]) -> String {
    String::from_utf8(b.to_vec()).unwrap()
}

#[test]
fn error_message_on_stdout() {
    let trackers = vec!["udp:bar.com".to_string(), "foo".to_string()];
    let error = check_announce(&trackers).unwrap_err();
    let (err, code) = error_report(&error, Style::inactive());
    let err = text(&err);
    if !err.starts_with("error: Failed to parse announce URL:") {
        panic!("Unexpected standard error output: {}", err);
    }
    assert_eq!(code, 1);
}

#[test]
fn lint_errors_carry_a_note() {
    let (report, code) = error_report(&Error::PieceLengthSmall, Style::inactive());
    assert_eq!(
        text(&report),
        "error: Piece length must be at least 16 KiB\nnote: This check can be disabled with `--allow small-piece-length`.\n"
    );
    assert_eq!(code, 1);
    let (report, _) = error_report(&Error::PieceLengthUneven { bytes: 20000 }, Style::inactive());
    assert_eq!(
        text(&report),
        "error: Piece length `20000` is not an even power of two\nnote: This check can be disabled with `--allow uneven-piece-length`.\n"
    );
}

#[test]
fn styled_report() {
    let (report, _) = error_report(&Error::PieceLengthZero, Style::active());
    assert_eq!(text(&report), "\u{1b}[1;31merror\u{1b}[0m: Piece length cannot be zero\n");
}

#[test]
fn error_messages() {
    assert_eq!(text(&Error::AnnounceEmpty.message()), "Must provide at least one announce URL");
    assert_eq!(
        text(&Error::BencodeDecode { position: 12, kind: DecodeErrorKind::UnsortedKey }.message()),
        "Failed to decode bencode at byte 12: dictionary keys out of order"
    );
    assert_eq!(
        text(&Error::MetainfoLoad { key: b"name".to_vec(), path: "a.torrent".to_string() }.message()),
        "Failed to deserialize torrent metainfo from `a.torrent`: invalid or missing key `name`"
    );
    assert_eq!(
        text(&Error::SymlinkRoot { root: "/x".to_string() }.message()),
        "Attempted to create torrent from symlink `/x`. To override, pass the `--follow-symlinks` flag."
    );
}

#[test]
fn status_text_lists_faults() {
    let status = Status {
        file_errors: vec![(0, FileError::Missing), (2, FileError::WrongLength { expected: 7, actual: 8 })],
        bad_pieces: vec![PieceMismatch { index: 1, start: 16384, end: 32768 }],
    };
    assert_eq!(
        text(&status.text()),
        "file 0 missing; file 2 is 8 bytes, expected 7; piece 1 (bytes 16384..32768) differs"
    );
    let (report, code) = error_report(&Error::Verify { status }, Style::inactive());
    assert!(text(&report).starts_with("error: Torrent verification failed: file 0 missing"));
    assert_eq!(code, 1);
    let empty = Status { file_errors: vec![], bad_pieces: vec![] };
    assert_eq!(text(&empty.text()), "");
}

#[test]
fn stream_styles() {
    assert!(stream_style(false, false, true).active);
    assert!(!stream_style(true, false, true).active);
    assert!(!stream_style(false, true, true).active);
    assert!(!stream_style(false, false, false).active);
}

#[test]
fn symlink_root_rule() {
    assert_eq!(
        check_root(&"/link".to_string(), true, false),
        Err(Error::SymlinkRoot { root: "/link".to_string() })
    );
    assert_eq!(check_root(&"/link".to_string(), true, true), Ok(()));
    assert_eq!(check_root(&"/dir".to_string(), false, false), Ok(()));
}

#[test]
fn length_must_match_walk() {
    assert_eq!(check_length(&"a".to_string(), 5, 5), Ok(()));
    assert!(matches!(check_length(&"a".to_string(), 5, 4), Err(Error::Filesystem { .. })));
}

#[test]
fn malformed_torrents_rejected() {
    let pieces = "6:pieces0:";
    let no_tracker = format!("d4:infod6:lengthi1e4:name1:x12:piece lengthi16384e{}ee", pieces);
    assert_eq!(
        Metainfo::deserialize(&no_tracker.into_bytes()),
        Err(Error::MetainfoLoad { key: b"announce".to_vec(), path: String::new() })
    );
    let empty_name = format!("d8:announce1:u4:infod6:lengthi1e4:name0:12:piece lengthi16384e{}ee", pieces);
    assert_eq!(
        Metainfo::deserialize(&empty_name.into_bytes()),
        Err(Error::MetainfoLoad { key: b"name".to_vec(), path: String::new() })
    );
    let dot_dot = format!(
        "d8:announce1:u4:infod5:filesld6:lengthi1e4:pathl2:..eee4:name1:x12:piece lengthi16384e{}ee",
        pieces
    );
    assert_eq!(
        Metainfo::deserialize(&dot_dot.into_bytes()),
        Err(Error::MetainfoLoad { key: b"files".to_vec(), path: String::new() })
    );
    let empty_path = format!(
        "d8:announce1:u4:infod5:filesld6:lengthi1e4:pathleee4:name1:x12:piece lengthi16384e{}ee",
        pieces
    );
    assert!(Metainfo::deserialize(&empty_path.into_bytes()).is_err());
    let fine = format!("d8:announce1:u4:infod6:lengthi1e4:name1:x12:piece lengthi16384e{}ee", pieces);
    assert!(Metainfo::deserialize(&fine.into_bytes()).is_ok());
}
