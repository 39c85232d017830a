use imdl_core::bencode::{decode, encode};
use imdl_core::env::{clean, Env, Style};
use imdl_core::error::Error;
use imdl_core::hasher::Hasher;
use imdl_core::metainfo::{FileInfo, Info, Metainfo, Mode, Node};
use imdl_core::verify::{compare, FileError, PieceMismatch};
use imdl_core::create::{check_announce, check_component, is_hidden, walks_before};

const L: usize = 16384;

fn hash(files: &[Vec<u8>]) -> Vec<Vec<u8>> {
    let mut h = Hasher::new(L);
    for f in files {
        h.update(f);
    }
    h.finish()
}

fn two_file_torrent() -> Metainfo {
    let pieces = hash(&[vec![0u8; L], vec![0xffu8; L]]);
    Metainfo {
        announce: Some("udp://tracker.example:1337".to_string()),
        announce_list: None,
        comment: None,
        created_by: None,
        creation_date: None,
        encoding: None,
        info: Info {
            private: None,
            piece_length: L as u64,
            name: "content".to_string(),
            source: None,
            pieces,
            mode: Mode::Multi {
                files: vec![
                    FileInfo { length: L as u64, path: vec!["a".to_string()], md5sum: None },
                    FileInfo { length: L as u64, path: vec!["b".to_string()], md5sum: None },
                ],
            },
        },
        nodes: None,
        http_seeds: None,
    }
}

#[test]
fn single_file_layout() {
    let m = Metainfo {
        announce: Some("udp://tracker.example:1337".to_string()),
        announce_list: None,
        comment: None,
        created_by: None,
        creation_date: None,
        encoding: None,
        info: Info {
            private: None,
            piece_length: L as u64,
            name: "hello.txt".to_string(),
            source: None,
            pieces: hash(&[b"hello".to_vec()]),
            mode: Mode::Single { length: 5, md5sum: None },
        },
        nodes: None,
        http_seeds: None,
    };
    let mut expected = b"d8:announce26:udp://tracker.example:13374:infod6:lengthi5e4:name9:hello.txt12:piece lengthi16384e6:pieces20:".to_vec();
    expected.extend_from_slice(&m.info.pieces[0]);
    expected.extend_from_slice(b"ee");
    assert_eq!(m.serialize(), expected);
}

#[test]
fn multi_file_order_kept() {
    let m = two_file_torrent();
    let bytes = m.serialize();
    let text = String::from_utf8_lossy(&bytes);
    let a = text.find("4:pathl1:ae").unwrap();
    let b = text.find("4:pathl1:be").unwrap();
    assert!(a < b);
    assert_eq!(m.info.pieces.len(), 2);
}

#[test]
fn torrent_round_trip() {
    let m = two_file_torrent();
    let bytes = m.serialize();
    let back = Metainfo::deserialize(&bytes).unwrap();
    assert_eq!(back, m);
    assert_eq!(back.serialize(), bytes);
}

#[test]
fn all_fields_round_trip() {
    let mut m = two_file_torrent();
    m.announce_list = Some(vec![vec!["http://a".to_string(), "http://b".to_string()], vec!["udp://c".to_string()]]);
    m.comment = Some("note".to_string());
    m.created_by = Some("maker".to_string());
    m.creation_date = Some(1_600_000_000);
    m.encoding = Some("UTF-8".to_string());
    m.nodes = Some(vec![Node { host: "router.example".to_string(), port: 6881 }]);
    m.http_seeds = Some(vec!["http://seed".to_string()]);
    m.info.private = Some(true);
    m.info.source = Some("src".to_string());
    if let Mode::Multi { files } = &mut m.info.mode {
        files[0].md5sum = Some(imdl_core::md5_digest::Md5Digest::from_data(b"x"));
    }
    let bytes = m.serialize();
    let v = decode(&bytes).unwrap();
    assert_eq!(encode(&v), bytes);
    let back = Metainfo::deserialize(&bytes).unwrap();
    assert_eq!(back, m);
}

#[test]
fn empty_pieces_encoded_empty() {
    let mut m = two_file_torrent();
    m.info.pieces = hash(&[]);
    assert!(m.info.pieces.is_empty());
    let text = String::from_utf8_lossy(&m.serialize()).to_string();
    assert!(text.contains("6:pieces0:"));
}

#[test]
fn deserialize_rejects_non_torrent() {
    assert_eq!(
        Metainfo::deserialize(&b"i1e".to_vec()),
        Err(Error::MetainfoLoad { key: b"info".to_vec(), path: String::new() })
    );
    assert_eq!(
        Metainfo::deserialize(&b"d4:infod4:name1:xee".to_vec()),
        Err(Error::MetainfoLoad { key: b"length".to_vec(), path: String::new() })
    );
    assert_eq!(
        Metainfo::load("t.torrent", &b"d4:infod4:name1:xee".to_vec()),
        Err(Error::MetainfoLoad { key: b"length".to_vec(), path: "t.torrent".to_string() })
    );
    assert_eq!(
        Metainfo::deserialize(&b"d4:infod6:lengthi1e4:name1:x12:piece lengthi0e6:pieces0:ee".to_vec()),
        Err(Error::MetainfoLoad { key: b"piece length".to_vec(), path: String::new() })
    );
    match Metainfo::deserialize(&b"d1:ai1e".to_vec()) {
        Err(Error::BencodeDecode { .. }) => {}
        other => panic!("unexpected: {:?}", other),
    }
}

#[test]
fn infohash_depends_on_info_only() {
    let m = two_file_torrent();
    let mut other = two_file_torrent();
    other.comment = Some("different".to_string());
    assert_eq!(m.info.infohash(), other.info.infohash());
    assert_eq!(m.info.infohash().len(), 20);
    other.info.name = "renamed".to_string();
    assert_ne!(m.info.infohash(), other.info.infohash());
}

#[test]
fn verify_own_content_is_ok() {
    let m = two_file_torrent();
    let found = hash(&[vec![0u8; L], vec![0xffu8; L]]);
    let status = compare(
        &vec![L as u64, L as u64],
        &vec![Some(L as u64), Some(L as u64)],
        &m.info.pieces,
        &found,
        L as u64,
        2 * L as u64,
    );
    assert!(status.is_ok());
}

#[test]
fn verify_detects_corruption() {
    let m = two_file_torrent();
    let mut b = vec![0xffu8; L];
    b[100] = 0;
    let found = hash(&[vec![0u8; L], b]);
    let status = compare(
        &vec![L as u64, L as u64],
        &vec![Some(L as u64), Some(L as u64)],
        &m.info.pieces,
        &found,
        L as u64,
        2 * L as u64,
    );
    assert!(!status.is_ok());
    assert_eq!(
        status.bad_pieces,
        vec![PieceMismatch { index: 1, start: L as u128, end: 2 * L as u128 }]
    );
    assert!(status.file_errors.is_empty());
}

#[test]
fn verify_reports_files() {
    let status = compare(
        &vec![5, 6, 7],
        &vec![None, Some(6), Some(8)],
        &vec![vec![1u8; 20]],
        &vec![],
        16384,
        18,
    );
    assert_eq!(
        status.file_errors,
        vec![(0, FileError::Missing), (2, FileError::WrongLength { expected: 7, actual: 8 })]
    );
    assert_eq!(status.bad_pieces, vec![PieceMismatch { index: 0, start: 0, end: 18 }]);
}

#[test]
fn resolve_paths() {
    let env = Env::new(
        b"/home/user".to_vec(),
        Style::inactive(),
        false,
        Style::active(),
        true,
        vec!["imdl".to_string()],
    );
    assert_eq!(env.resolve(&b"foo".to_vec()), b"/home/user/foo".to_vec());
    assert_eq!(env.resolve(&b"../x/./y/".to_vec()), b"/home/x/y".to_vec());
    assert_eq!(env.resolve(&b"/etc/../tmp".to_vec()), b"/tmp".to_vec());
    assert_eq!(env.resolve(&b"../../../..".to_vec()), b"/".to_vec());
    assert_eq!(env.dir(), &b"/home/user".to_vec());
    assert!(env.err_is_term());
    assert!(!env.out_is_term());
    assert!(!env.out_style().active);
    assert!(env.err_style().active);
}

#[test]
fn clean_relative_paths() {
    assert_eq!(clean(&b"".to_vec()), b".".to_vec());
    assert_eq!(clean(&b"a/..".to_vec()), b".".to_vec());
    assert_eq!(clean(&b"../a//b".to_vec()), b"../a/b".to_vec());
    assert_eq!(clean(&b"a/b/../../..".to_vec()), b"..".to_vec());
}

#[test]
fn walk_order_is_bytewise() {
    assert!(walks_before(&b"a".to_vec(), &b"b".to_vec()));
    assert!(!walks_before(&b"b".to_vec(), &b"a".to_vec()));
    assert!(walks_before(&b"B".to_vec(), &b"a".to_vec()));
    assert!(walks_before(&b"a".to_vec(), &b"ab".to_vec()));
    assert!(!walks_before(&b"a".to_vec(), &b"a".to_vec()));
}

#[test]
fn path_components_checked() {
    assert_eq!(check_component(&b"file.txt".to_vec()), Ok("file.txt".to_string()));
    assert_eq!(
        check_component(&b"..".to_vec()),
        Err(Error::PathComponent { component: b"..".to_vec() })
    );
    assert_eq!(
        check_component(&b".".to_vec()),
        Err(Error::PathComponent { component: b".".to_vec() })
    );
    assert_eq!(
        check_component(&Vec::new()),
        Err(Error::PathComponent { component: Vec::new() })
    );
    assert_eq!(
        check_component(&vec![0xff, 0xfe]),
        Err(Error::PathDecode { component: vec![0xff, 0xfe] })
    );
    assert!(is_hidden(&b".git".to_vec()));
    assert!(!is_hidden(&b"git".to_vec()));
}

#[test]
fn announce_urls_checked() {
    assert_eq!(check_announce(&vec![]), Err(Error::AnnounceEmpty));
    assert_eq!(check_announce(&vec!["udp://tracker.example:1337".to_string()]), Ok(()));
    assert_eq!(
        check_announce(&vec!["http://ok.example/announce".to_string(), "not a url".to_string()]),
        Err(Error::AnnounceUrlParse { text: "not a url".to_string() })
    );
}

#[test]
fn info_for_single_file_root() {
    let pieces = hash(&[b"hello".to_vec()]);
    let files = vec![FileInfo { length: 5, path: Vec::new(), md5sum: None }];
    let info = imdl_core::create::assemble_info(
        "hello.txt".to_string(), L as u64, pieces, files, true, false, None,
    );
    assert_eq!(info.mode, Mode::Single { length: 5, md5sum: None });
    assert_eq!(info.name, "hello.txt");
    assert_eq!(info.private, None);
}

#[test]
fn info_for_directory_keeps_order() {
    let files = vec![
        FileInfo { length: 1, path: vec!["a".to_string(), "y".to_string()], md5sum: None },
        FileInfo { length: 1, path: vec!["b".to_string(), "x".to_string()], md5sum: None },
    ];
    let info = imdl_core::create::assemble_info(
        "root".to_string(), L as u64, hash(&[b"2".to_vec(), b"1".to_vec()]), files, false, true, None,
    );
    match &info.mode {
        Mode::Multi { files } => {
            assert_eq!(files[0].path, vec!["a".to_string(), "y".to_string()]);
            assert_eq!(files[1].path, vec!["b".to_string(), "x".to_string()]);
        }
        _ => panic!("expected a multi-file torrent"),
    }
    assert_eq!(info.private, Some(true));
}
